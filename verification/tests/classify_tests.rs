use msfx::json::JSON;
use msfx::entry::{Entry, Error};
use msfx::dt::{Date, Time, Timestamp};

#[test]
fn mixed_document_classifies_and_crud_works() {
    let json_data = r#"{"is_active": true, "notes": "hello", "file_data": "SGVsbG8gd29ybGQ="}"#;
    let mut c = JSON::deserialize(json_data).unwrap();
    match c.get("is_active") {
        Some(Entry::Boolean(b)) => assert!(*b),
        other => panic!("is_active: {:?}", other.is_some()),
    }
    match c.get("notes") {
        Some(Entry::String(s)) => assert_eq!(s, "hello"),
        _ => panic!("notes should stay a string"),
    }
    let expected: Vec<u8> = vec![72, 101, 108, 108, 111, 32, 119, 111, 114, 108, 100];
    match c.get("file_data") {
        Some(Entry::Binary(b)) => assert_eq!(b, &expected),
        _ => panic!("file_data should decode as binary"),
    }
    match c.remove("file_data") {
        Some(Entry::Binary(b)) => assert_eq!(b, expected),
        _ => panic!("remove should hand the binary back"),
    }
    assert!(c.get("file_data").is_none());
}

#[test]
fn wire_number_becomes_decimal_and_reserializes_as_string() {
    let c = JSON::deserialize(r#"{"balance": 1234.5678}"#).unwrap();
    match c.get("balance") {
        Some(Entry::Decimal(d)) => {
            assert_eq!(d.mantissa(), 12345678);
            assert_eq!(d.scale(), 4);
        },
        _ => panic!("number should become a decimal"),
    }
    let s = c.serialize().unwrap();
    assert_eq!(s, r#"{"balance":"1234.5678"}"#);
}

#[test]
fn boolean_round_trip() {
    let mut c = JSON::new();
    c.set("flag".to_string(), Entry::Boolean(true));
    let text = c.serialize().unwrap();
    let c2 = JSON::deserialize(&text).unwrap();
    assert!(matches!(c2.get("flag"), Some(Entry::Boolean(true))));
}

#[test]
fn date_round_trip() {
    let d = Date::new(2024, 11, 2).unwrap();
    let mut c = JSON::new();
    c.set("day".to_string(), Entry::Date(d));
    let text = c.serialize().unwrap();
    assert_eq!(text, r#"{"day":"2024-11-02"}"#);
    let c2 = JSON::deserialize(&text).unwrap();
    match c2.get("day") {
        Some(Entry::Date(d2)) => assert_eq!(*d2, d),
        _ => panic!("date should come back as a date"),
    }
}

#[test]
fn time_round_trip() {
    let t = Time::new(14, 30, 0).unwrap();
    let mut c = JSON::new();
    c.set("at".to_string(), Entry::Time(t));
    let text = c.serialize().unwrap();
    assert_eq!(text, r#"{"at":"14:30:00"}"#);
    let c2 = JSON::deserialize(&text).unwrap();
    match c2.get("at") {
        Some(Entry::Time(t2)) => assert_eq!(*t2, t),
        _ => panic!("time should come back as a time"),
    }
}

#[test]
fn timestamp_round_trip() {
    let ts = Timestamp::new(2024, 11, 2, 14, 30, 0, 0).unwrap();
    let mut c = JSON::new();
    c.set("when".to_string(), Entry::Timestamp(ts));
    let text = c.serialize().unwrap();
    let c2 = JSON::deserialize(&text).unwrap();
    match c2.get("when") {
        Some(Entry::Timestamp(t2)) => assert_eq!(*t2, ts),
        _ => panic!("timestamp should come back as a timestamp"),
    }
}

#[test]
fn timestamp_is_normalized_to_utc() {
    let c = JSON::deserialize(r#"{"when": "2024-11-02T14:30:00+02:00"}"#).unwrap();
    match c.get("when") {
        Some(Entry::Timestamp(t)) => {
            assert_eq!(*t, Timestamp::new(2024, 11, 2, 12, 30, 0, 0).unwrap());
        },
        _ => panic!("offset timestamps should parse"),
    }
}

#[test]
fn timestamp_without_offset_stays_a_string() {
    let c = JSON::deserialize(r#"{"when": "2024-11-02T14:30:00"}"#).unwrap();
    assert!(matches!(c.get("when"), Some(Entry::String(_))));
}

#[test]
fn binary_round_trip() {
    let bytes: Vec<u8> = vec![0, 1, 2, 250, 251, 252];
    let mut c = JSON::new();
    c.set("blob".to_string(), Entry::Binary(bytes.clone()));
    let text = c.serialize().unwrap();
    let c2 = JSON::deserialize(&text).unwrap();
    match c2.get("blob") {
        Some(Entry::Binary(b)) => assert_eq!(*b, bytes),
        _ => panic!("binary should come back as binary"),
    }
}

#[test]
fn empty_string_is_empty_binary() {
    let c = JSON::deserialize(r#"{"x": ""}"#).unwrap();
    match c.get("x") {
        Some(Entry::Binary(b)) => assert!(b.is_empty()),
        _ => panic!("the empty string is valid base64"),
    }
}

#[test]
fn base64_takes_priority_over_later_rules() {
    let c = JSON::deserialize(r#"{"x": "20240101", "y": "2024-01-01"}"#).unwrap();
    assert!(matches!(c.get("x"), Some(Entry::Binary(_))));
    assert!(matches!(c.get("y"), Some(Entry::Date(_))));
}

#[test]
fn long_text_without_timestamp_skeleton_stays_a_string() {
    let c = JSON::deserialize(r#"{"x": "abcdefghijklmnopqrstu"}"#).unwrap();
    assert!(matches!(c.get("x"), Some(Entry::String(_))));
}

#[test]
fn timestamp_normalizing_past_four_digit_years_stays_a_string() {
    let c = JSON::deserialize(r#"{"x": "9999-12-31T23:59:59-01:00"}"#).unwrap();
    assert!(matches!(c.get("x"), Some(Entry::String(_))));
}

#[test]
fn ordinary_text_stays_a_string() {
    let c = JSON::deserialize(r#"{"notes": "This is a test"}"#).unwrap();
    match c.get("notes") {
        Some(Entry::String(s)) => assert_eq!(s, "This is a test"),
        _ => panic!("free text should stay a string"),
    }
}

#[test]
fn null_and_array_leaves_are_rejected() {
    assert_eq!(JSON::deserialize(r#"{"x": null}"#).unwrap_err(), Error::Unsupported);
    assert_eq!(JSON::deserialize(r#"{"x": [1, 2]}"#).unwrap_err(), Error::Unsupported);
}

#[test]
fn malformed_text_and_non_object_top_level_are_rejected() {
    assert_eq!(JSON::deserialize("{").unwrap_err(), Error::Malformed);
    assert_eq!(JSON::deserialize("[1, 2]").unwrap_err(), Error::Malformed);
    assert_eq!(JSON::deserialize("true").unwrap_err(), Error::Malformed);
}

#[test]
fn unrepresentable_number_is_rejected() {
    assert_eq!(JSON::deserialize(r#"{"x": 1e300}"#).unwrap_err(), Error::BadNumber);
}

#[test]
fn nested_objects_round_trip() {
    let text = r#"{"a": {"b": {"c": true}, "t": "14:30:00"}, "top": false}"#;
    let c = JSON::deserialize(text).unwrap();
    let once = c.serialize().unwrap();
    let c2 = JSON::deserialize(&once).unwrap();
    let twice = c2.serialize().unwrap();
    assert_eq!(once, twice);
    match c2.get("a") {
        Some(Entry::Object(members)) => {
            assert_eq!(members.len(), 2);
            let b = members.iter().find(|p| p.0 == "b").expect("member b kept");
            match &b.1 {
                Entry::Object(inner) => {
                    assert_eq!(inner.len(), 1);
                    assert_eq!(inner[0].0, "c");
                    assert!(matches!(inner[0].1, Entry::Boolean(true)));
                },
                _ => panic!("nesting depth should be preserved"),
            }
            let t = members.iter().find(|p| p.0 == "t").expect("member t kept");
            assert!(matches!(t.1, Entry::Time(_)));
        },
        _ => panic!("nested object should stay an object"),
    }
    assert!(matches!(c2.get("top"), Some(Entry::Boolean(false))));
}

#[test]
fn decimal_encoding_stays_textual_after_first_cycle() {
    let c = JSON::deserialize(r#"{"n": 25}"#).unwrap();
    assert!(matches!(c.get("n"), Some(Entry::Decimal(_))));
    let once = c.serialize().unwrap();
    assert_eq!(once, r#"{"n":"25"}"#);
    let c2 = JSON::deserialize(&once).unwrap();
    // The two-digit text "25" is not valid base64 (wrong length), not a date,
    // not a time, not a timestamp: it stays a string from here on.
    assert!(matches!(c2.get("n"), Some(Entry::String(_))));
    assert_eq!(c2.serialize().unwrap(), r#"{"n":"25"}"#);
}
