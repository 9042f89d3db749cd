use rubbish::json::Field;
use rubbish::metadata::{
    checked_metadata, metadata_from, metadata_text, normalize_timestamp, parse_int, read_metadata,
    Metadata, StampUnit,
};

/// A JSON object with the given members, compact.
fn object(members: Vec<(&str, serde_json::Value)>) -> String {
    let map: serde_json::Map<String, serde_json::Value> =
        members.into_iter().map(|(k, v)| (k.to_string(), v)).collect();
    serde_json::to_string(&map).unwrap()
}

fn timestamp_in(text: &str, unit: StampUnit) -> Option<i64> {
    checked_metadata(text, unit).expect("a readable timestamp").timestamp
}

#[test]
fn test_read_metadata_timestamp_seconds_and_millis() {
    let ts_secs: i64 = 1_700_000_000;
    let meta_secs = object(vec![
        ("title", "S".into()),
        ("tags", vec!["t"].into()),
        ("timestamp", ts_secs.into()),
    ]);
    assert_eq!(timestamp_in(&meta_secs, StampUnit::Millis), Some(ts_secs * 1000));

    let ts_millis: i64 = ts_secs * 1000;
    let meta_millis = object(vec![
        ("title", "M".into()),
        ("tags", vec!["t"].into()),
        ("timestamp", ts_millis.into()),
    ]);
    assert_eq!(timestamp_in(&meta_millis, StampUnit::Millis), Some(ts_millis));

    let meta_millis_str = object(vec![
        ("title", "MS".into()),
        ("tags", vec!["t"].into()),
        ("timestamp", ts_millis.to_string().into()),
    ]);
    assert_eq!(timestamp_in(&meta_millis_str, StampUnit::Millis), Some(ts_millis));
}

#[test]
fn tui_test_read_metadata_timestamp_seconds_and_millis() {
    let ts_secs: i64 = 1_700_000_000;
    let meta_secs = object(vec![
        ("title", "S".into()),
        ("tags", vec!["t"].into()),
        ("timestamp", ts_secs.into()),
    ]);
    assert_eq!(timestamp_in(&meta_secs, StampUnit::Seconds), Some(ts_secs));

    let ts_millis: i64 = ts_secs * 1000;
    let meta_millis = object(vec![
        ("title", "M".into()),
        ("tags", vec!["t"].into()),
        ("timestamp", ts_millis.into()),
    ]);
    assert_eq!(timestamp_in(&meta_millis, StampUnit::Seconds), Some(ts_secs));

    let meta_millis_str = object(vec![
        ("title", "MS".into()),
        ("tags", vec!["t"].into()),
        ("timestamp", ts_millis.to_string().into()),
    ]);
    assert_eq!(timestamp_in(&meta_millis_str, StampUnit::Seconds), Some(ts_secs));
}

#[test]
fn titles_and_tags() {
    let m = read_metadata(
        "{\"title\": \"A\\u00e9\", \"tags\": [\"x\", 1, \"y\", null], \"more\": {}}",
        StampUnit::Millis,
    );
    assert_eq!(m.title, "Aé");
    assert_eq!(m.tags, vec!["x".to_string(), "y".to_string()]);
    assert_eq!(m.timestamp, None);
}

#[test]
fn what_is_not_understood_is_left_out() {
    for text in ["", "nonsense", "[1, 2]", "\"title\"", "{}", "{\"title\": 1, \"tags\": \"x\"}"] {
        let m = checked_metadata(text, StampUnit::Millis).unwrap();
        assert_eq!(m.title, "");
        assert!(m.tags.is_empty());
        assert_eq!(m.timestamp, None);
    }
    let none = Metadata::none();
    assert_eq!(none.title, "");
    assert!(none.tags.is_empty());
    assert_eq!(none.timestamp, None);
}

#[test]
fn the_last_of_two_members_counts() {
    let m = read_metadata("{\"title\": \"a\", \"title\": \"b\"}", StampUnit::Millis);
    assert_eq!(m.title, "b");
}

#[test]
fn odd_timestamps() {
    let stamp = |text: &str| {
        timestamp_in(&format!("{{\"timestamp\": {}}}", text), StampUnit::Millis)
    };
    assert_eq!(stamp("1.5"), None);
    assert_eq!(stamp("true"), None);
    assert_eq!(stamp("\"12x\""), None);
    assert_eq!(stamp("\"+12\""), Some(12_000));
    assert_eq!(stamp("-5"), Some(-5000));
    // beyond the signed range the largest number is taken
    assert_eq!(stamp("18446744073709551615"), Some(i64::MAX));
    assert_eq!(stamp("9223372036854775808"), Some(i64::MAX));
    assert_eq!(stamp("3000000000"), Some(3_000_000_000_000));
    assert_eq!(stamp("3000000001"), Some(3_000_000_001));
    assert_eq!(stamp("-3000000001"), Some(-3_000_000_001));
}

#[test]
fn the_least_timestamp_is_refused() {
    assert!(checked_metadata("{\"timestamp\": -9223372036854775808}", StampUnit::Millis).is_none());
    assert!(checked_metadata("{\"timestamp\": \"-9223372036854775808\"}", StampUnit::Seconds).is_none());
    let text = "{\"timestamp\": 18446744073709551615}";
    assert_eq!(timestamp_in(text, StampUnit::Seconds), Some(9_223_372_036_854_775));
    assert!(checked_metadata("{\"timestamp\": -9223372036854775807}", StampUnit::Millis).is_some());
}

#[test]
fn fields_by_themselves() {
    let m = metadata_from(
        Some(Field::Text("t".to_string())),
        Some(Field::List(vec![None, Some("a".to_string())])),
        Some(Field::Number(None, Some(u64::MAX))),
        StampUnit::Seconds,
    );
    assert_eq!(m.title, "t");
    assert_eq!(m.tags, vec!["a".to_string()]);
    assert_eq!(m.timestamp, Some(9_223_372_036_854_775));
    let m = metadata_from(Some(Field::Other), None, Some(Field::Other), StampUnit::Seconds);
    assert_eq!(m.title, "");
    assert!(m.tags.is_empty());
    assert_eq!(m.timestamp, None);
}

#[test]
fn units_of_timestamps() {
    assert_eq!(normalize_timestamp(1_700_000_000, StampUnit::Millis), 1_700_000_000_000);
    assert_eq!(normalize_timestamp(1_700_000_000_123, StampUnit::Millis), 1_700_000_000_123);
    assert_eq!(normalize_timestamp(1_700_000_000, StampUnit::Seconds), 1_700_000_000);
    assert_eq!(normalize_timestamp(1_700_000_000_999, StampUnit::Seconds), 1_700_000_000);
    assert_eq!(normalize_timestamp(-3_000_000_999, StampUnit::Seconds), -3_000_000);
}

#[test]
fn integers_in_text() {
    assert_eq!(parse_int("0"), Some(0));
    assert_eq!(parse_int("-0"), Some(0));
    assert_eq!(parse_int("9223372036854775807"), Some(i64::MAX));
    assert_eq!(parse_int("-9223372036854775808"), Some(i64::MIN));
    assert_eq!(parse_int("9223372036854775808"), None);
    assert_eq!(parse_int("-9223372036854775809"), None);
    for s in ["", "+", "-", " 1", "1 ", "--1", "1_0", "１"] {
        assert_eq!(parse_int(s), None);
        assert!(s.parse::<i64>().is_err());
    }
    for s in ["0", "007", "+5", "-17", "1234567890123"] {
        assert_eq!(parse_int(s), s.parse::<i64>().ok());
    }
}

#[test]
fn a_sidecar_is_read_back() {
    let tags = vec!["a \"quoted\" tag".to_string(), "ünïcode\n".to_string(), String::new()];
    let text = metadata_text("The \\ title", &tags, 1_700_000_000_123);
    let m = checked_metadata(&text, StampUnit::Millis).unwrap();
    assert_eq!(m.title, "The \\ title");
    assert_eq!(m.tags, tags);
    assert_eq!(m.timestamp, Some(1_700_000_000_123));
    let m = checked_metadata(&text, StampUnit::Seconds).unwrap();
    assert_eq!(m.timestamp, Some(1_700_000_000));
}

#[test]
fn the_shape_of_a_sidecar() {
    let text = metadata_text("T", &vec!["x".to_string()], 1_700_000_000_123);
    assert_eq!(
        text,
        "{\n  \"tags\": [\n    \"x\"\n  ],\n  \"timestamp\": 1700000000123,\n  \"title\": \"T\"\n}"
    );
}
