use gonfig::{ConfigMerger, ConfigValue, MergeStrategy};

fn mobj(entries: Vec<(&str, ConfigValue)>) -> ConfigValue {
    ConfigValue::Object(entries.into_iter().map(|(k, v)| (k.to_string(), v)).collect())
}

fn mtext(s: &str) -> ConfigValue {
    ConfigValue::Text(s.to_string())
}

fn marr(items: Vec<ConfigValue>) -> ConfigValue {
    ConfigValue::Array(items)
}

#[test]
fn test_deep_merge() {
    let merger = ConfigMerger::new(MergeStrategy::Deep);

    let base = mobj(vec![
        (
            "database",
            mobj(vec![("host", mtext("localhost")), ("port", ConfigValue::Int(5432))]),
        ),
        ("logging", mobj(vec![("level", mtext("info"))])),
    ]);

    let incoming = mobj(vec![
        (
            "database",
            mobj(vec![("port", ConfigValue::Int(3306)), ("username", mtext("admin"))]),
        ),
        ("logging", mobj(vec![("format", mtext("json"))])),
    ]);

    let result = merger.merge_sources(vec![(base, 1), (incoming, 2)]);

    let database = result.get("database").unwrap();
    assert_eq!(database.get("host").unwrap().as_str().unwrap().as_str(), "localhost");
    assert_eq!(database.get("port").unwrap().as_i64(), Some(3306));
    assert_eq!(database.get("username").unwrap().as_str().unwrap().as_str(), "admin");
    let logging = result.get("logging").unwrap();
    assert_eq!(logging.get("level").unwrap().as_str().unwrap().as_str(), "info");
    assert_eq!(logging.get("format").unwrap().as_str().unwrap().as_str(), "json");
}

#[test]
fn test_replace_merge() {
    let merger = ConfigMerger::new(MergeStrategy::Replace);

    let base = mobj(vec![
        (
            "database",
            mobj(vec![("host", mtext("localhost")), ("port", ConfigValue::Int(5432))]),
        ),
        ("logging", mobj(vec![("level", mtext("info"))])),
    ]);

    let incoming = mobj(vec![(
        "database",
        mobj(vec![("port", ConfigValue::Int(3306)), ("username", mtext("admin"))]),
    )]);

    let result = merger.merge_sources(vec![(base, 1), (incoming, 2)]);

    // Replace supersedes per key, wholesale and without recursion: the
    // incoming "database" object stands entirely, so "host" is gone, while a
    // key only the base holds is kept.
    let database = result.get("database").unwrap();
    assert_eq!(database.get("port").unwrap().as_i64(), Some(3306));
    assert_eq!(database.get("username").unwrap().as_str().unwrap().as_str(), "admin");
    assert!(database.get("host").is_none());
    assert!(result.get("logging").is_some());
    assert_eq!(
        result.get("logging").unwrap().get("level").unwrap().as_str().unwrap().as_str(),
        "info"
    );
}

#[test]
fn test_append_merge_arrays() {
    let merger = ConfigMerger::new(MergeStrategy::Append);

    let base = mobj(vec![
        ("plugins", marr(vec![mtext("auth"), mtext("logging")])),
        ("features", mobj(vec![("enabled", marr(vec![mtext("feature1")]))])),
    ]);

    let incoming = mobj(vec![
        ("plugins", marr(vec![mtext("metrics"), mtext("tracing")])),
        (
            "features",
            mobj(vec![("enabled", marr(vec![mtext("feature2"), mtext("feature3")]))]),
        ),
    ]);

    let result = merger.merge_sources(vec![(base, 1), (incoming, 2)]);

    let plugins = result.get("plugins").unwrap().as_array().unwrap();
    assert_eq!(plugins.len(), 4);
    assert!(plugins.contains(&mtext("auth")));
    assert!(plugins.contains(&mtext("logging")));
    assert!(plugins.contains(&mtext("metrics")));
    assert!(plugins.contains(&mtext("tracing")));

    let features = result.get("features").unwrap().get("enabled").unwrap().as_array().unwrap();
    assert_eq!(features.len(), 3);
}

#[test]
fn test_priority_ordering() {
    let merger = ConfigMerger::new(MergeStrategy::Deep);

    let low_priority = mobj(vec![("value", mtext("low")), ("only_low", mtext("yes"))]);
    let medium_priority = mobj(vec![("value", mtext("medium")), ("only_medium", mtext("yes"))]);
    let high_priority = mobj(vec![("value", mtext("high")), ("only_high", mtext("yes"))]);

    // Sources are sorted by priority before merging.
    let result = merger.merge_sources(vec![
        (high_priority, 3),
        (low_priority, 1),
        (medium_priority, 2),
    ]);

    assert_eq!(result.get("value").unwrap().as_str().unwrap().as_str(), "high");
    assert_eq!(result.get("only_low").unwrap().as_str().unwrap().as_str(), "yes");
    assert_eq!(result.get("only_medium").unwrap().as_str().unwrap().as_str(), "yes");
    assert_eq!(result.get("only_high").unwrap().as_str().unwrap().as_str(), "yes");
}

#[test]
fn test_null_value_handling() {
    let merger = ConfigMerger::new(MergeStrategy::Deep);

    let base = mobj(vec![("field1", mtext("value1")), ("field2", mtext("value2"))]);
    let incoming = mobj(vec![("field1", ConfigValue::Null), ("field3", mtext("value3"))]);

    let result = merger.merge_sources(vec![(base, 1), (incoming, 2)]);

    // Null values should override.
    assert!(result.get("field1").unwrap().is_null());
    assert_eq!(result.get("field2").unwrap().as_str().unwrap().as_str(), "value2");
    assert_eq!(result.get("field3").unwrap().as_str().unwrap().as_str(), "value3");
}

#[test]
fn test_deep_priority_same_key_scalar() {
    // Two sources hold the same key with different scalar values: the
    // higher-priority value wins under Deep.
    let merger = ConfigMerger::new(MergeStrategy::Deep);
    let low = mobj(vec![("port", ConfigValue::Int(1))]);
    let high = mobj(vec![("port", ConfigValue::Int(2))]);
    let result = merger.merge_sources(vec![(low, 1), (high, 2)]);
    assert_eq!(result.get("port").unwrap().as_i64(), Some(2));
}

#[test]
fn test_append_concatenation_order() {
    // [a, b] then [c, d] at the same key gives [a, b, c, d] in that order.
    let merger = ConfigMerger::new(MergeStrategy::Append);
    let base = mobj(vec![("xs", marr(vec![mtext("a"), mtext("b")]))]);
    let incoming = mobj(vec![("xs", marr(vec![mtext("c"), mtext("d")]))]);
    let result = merger.merge_sources(vec![(base, 1), (incoming, 2)]);
    let xs = result.get("xs").unwrap().as_array().unwrap();
    assert_eq!(
        xs,
        &vec![mtext("a"), mtext("b"), mtext("c"), mtext("d")]
    );
    assert_eq!(xs.len(), 4);
}

#[test]
fn test_replace_never_recurses() {
    // The nested example: {"db":{"host":"x","port":1}} then {"db":{"port":2}}
    // yields db == {"port":2} under Replace and db == {"host":"x","port":2}
    // under Deep.
    let base = mobj(vec![(
        "db",
        mobj(vec![("host", mtext("x")), ("port", ConfigValue::Int(1))]),
    )]);
    let incoming = mobj(vec![("db", mobj(vec![("port", ConfigValue::Int(2))]))]);

    let replaced = ConfigMerger::new(MergeStrategy::Replace).merge_sources(vec![
        (base.clone(), 1),
        (incoming.clone(), 2),
    ]);
    let rdb = replaced.get("db").unwrap();
    assert_eq!(rdb, &mobj(vec![("port", ConfigValue::Int(2))]));
    assert!(rdb.get("host").is_none());

    let deep = ConfigMerger::new(MergeStrategy::Deep).merge_sources(vec![(base, 1), (incoming, 2)]);
    let ddb = deep.get("db").unwrap();
    assert_eq!(ddb.get("host").unwrap().as_str().unwrap().as_str(), "x");
    assert_eq!(ddb.get("port").unwrap().as_i64(), Some(2));
}

#[test]
fn test_null_overwrite_example() {
    // {"a":"x"} then {"a":null} yields {"a":null} under Deep.
    let merger = ConfigMerger::new(MergeStrategy::Deep);
    let base = mobj(vec![("a", mtext("x"))]);
    let incoming = mobj(vec![("a", ConfigValue::Null)]);
    let result = merger.merge_sources(vec![(base, 1), (incoming, 2)]);
    assert_eq!(result, mobj(vec![("a", ConfigValue::Null)]));
}

#[test]
fn test_merge_with_precedence_keys_ignored() {
    let merger = ConfigMerger::new(MergeStrategy::Deep);
    let sources = vec![
        ("low".to_string(), (mobj(vec![("k", ConfigValue::Int(1))]), 1u8)),
        ("high".to_string(), (mobj(vec![("k", ConfigValue::Int(2))]), 2u8)),
    ];
    let result = merger.merge_with_precedence(sources);
    assert_eq!(result.get("k").unwrap().as_i64(), Some(2));
}
