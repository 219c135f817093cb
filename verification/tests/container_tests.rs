use msfx::json::JSON;
use msfx::entry::Entry;
use msfx::dec::Dec;
use msfx::dt::{Date, Time, Timestamp};
use msfx::types::Types;

#[test]
fn new_container_is_empty() {
    let c = JSON::new();
    assert!(c.get("anything").is_none());
    assert_eq!(c.serialize().unwrap(), "{}");
}

#[test]
fn set_inserts_and_overwrites() {
    let mut c = JSON::new();
    c.set("k".to_string(), Entry::Boolean(true));
    assert!(matches!(c.get("k"), Some(Entry::Boolean(true))));
    c.set("k".to_string(), Entry::String("now a string".to_string()));
    match c.get("k") {
        Some(Entry::String(s)) => assert_eq!(s, "now a string"),
        _ => panic!("last write should win"),
    }
    let text = c.serialize().unwrap();
    assert_eq!(text, r#"{"k":"now a string"}"#);
}

#[test]
fn remove_reports_absence() {
    let mut c = JSON::new();
    assert!(c.remove("missing").is_none());
    c.set("k".to_string(), Entry::Boolean(false));
    assert!(matches!(c.remove("k"), Some(Entry::Boolean(false))));
    assert!(c.remove("k").is_none());
}

#[test]
fn date_constructor_checks_the_calendar() {
    assert!(Date::new(2024, 2, 29).is_some());
    assert!(Date::new(2023, 2, 29).is_none());
    assert!(Date::new(2024, 4, 31).is_none());
    assert!(Date::new(2024, 13, 1).is_none());
    assert!(Date::new(2024, 0, 1).is_none());
    assert!(Date::new(1900, 2, 29).is_none());
    assert!(Date::new(2000, 2, 29).is_some());
}

#[test]
fn time_constructor_checks_ranges() {
    assert!(Time::new(23, 59, 59).is_some());
    assert!(Time::new(24, 0, 0).is_none());
    assert!(Time::new(12, 60, 0).is_none());
    assert!(Time::new(12, 0, 60).is_none());
}

#[test]
fn timestamp_constructor_checks_ranges() {
    assert!(Timestamp::new(2024, 11, 2, 14, 30, 0, 0).is_some());
    assert!(Timestamp::new(2024, 2, 30, 0, 0, 0, 0).is_none());
    assert!(Timestamp::new(-5, 1, 1, 0, 0, 0, 0).is_none());
    assert!(Timestamp::new(10000, 1, 1, 0, 0, 0, 0).is_none());
    assert!(Timestamp::new(2024, 6, 30, 23, 59, 59, 1_500_000_000).is_some());
    assert!(Timestamp::new(2024, 6, 30, 23, 59, 30, 1_500_000_000).is_none());
}

#[test]
fn decimal_constructor_checks_ranges() {
    assert!(Dec::new(12345678, 4).is_some());
    assert!(Dec::new(0, 29).is_none());
    assert!(Dec::new(i128::MAX, 0).is_none());
    let d = Dec::new(-5, 3).unwrap();
    assert_eq!(d.mantissa(), -5);
    assert_eq!(d.scale(), 3);
}

#[test]
fn negative_and_fractional_decimals_serialize_canonically() {
    let mut c = JSON::new();
    c.set("a".to_string(), Entry::Decimal(Dec::new(-5, 3).unwrap()));
    c.set("b".to_string(), Entry::Decimal(Dec::new(0, 2).unwrap()));
    let text = c.serialize().unwrap();
    assert_eq!(text, r#"{"a":"-0.005","b":"0.00"}"#);
}

#[test]
fn string_that_is_valid_base64_comes_back_as_binary() {
    let mut c = JSON::new();
    c.set("s".to_string(), Entry::String("SGVsbG8=".to_string()));
    let text = c.serialize().unwrap();
    let c2 = JSON::deserialize(&text).unwrap();
    match c2.get("s") {
        Some(Entry::Binary(b)) => assert_eq!(b, b"Hello"),
        _ => panic!("a base64-shaped string re-enters the binary rule"),
    }
}

#[test]
fn object_entry_set_by_hand_serializes_nested() {
    let mut c = JSON::new();
    let inner = vec![("deep".to_string(), Entry::Boolean(true))];
    c.set("outer".to_string(), Entry::Object(inner));
    let text = c.serialize().unwrap();
    assert_eq!(text, r#"{"outer":{"deep":true}}"#);
}

#[test]
fn type_tags_enumerate_and_name_themselves() {
    let all = Types::all();
    assert_eq!(all.len(), 13);
    assert_eq!(all[0], Types::BOOLEAN);
    assert_eq!(all[12], Types::JSON);
    assert_eq!(Types::BOOLEAN.name(), "BOOLEAN");
    assert_eq!(Types::DECIMAL.name(), "DECIMAL");
    assert_eq!(Types::VARBINARY.name(), "VARBINARY");
    assert_eq!(Types::TIMESTAMP.name(), "TIMESTAMP");
    let mut seen: Vec<&str> = Vec::new();
    for t in &all {
        let n = t.name();
        assert!(!seen.contains(&n));
        seen.push(n);
    }
}
