use ar_settings::cfg::validate_value;
use ar_settings::error::{Check, SettingsError};
use ar_settings::json::JsonValue;
use ar_settings::types::{ColumnType, InnerColumnType};
use ar_settings::value::{Value, ValueMap};

fn text(s: &str) -> Value {
    Value::String(s.to_string())
}

fn json_type(max_bytes: Option<usize>) -> ColumnType {
    ColumnType::new_scalar(InnerColumnType::Json { kind: "any".to_string(), max_bytes })
}

fn entries(m: &ValueMap) -> Vec<(String, Value)> {
    let mut out = Vec::new();
    let mut i = 0;
    while let Some((k, v)) = m.get_index(i) {
        out.push((k.clone(), v.clone()));
        i += 1;
    }
    out
}

#[test]
fn json_passthrough() {
    let t = json_type(None);
    assert_eq!(validate_value(text("hello"), &t, "j", false), Ok(text("hello")));
    assert_eq!(validate_value(text("12"), &t, "j", false), Ok(text("12")));
    assert_eq!(validate_value(text(""), &t, "j", false), Ok(text("")));
    assert_eq!(validate_value(text(" {\"a\":1}"), &t, "j", false), Ok(text(" {\"a\":1}")));
}

#[test]
fn json_size_bound() {
    let t = json_type(Some(5));
    match validate_value(text("{\"a\":1}"), &t, "j", false) {
        Err(SettingsError::SchemaCheckValidationError { column, check, accepted_range, detail }) => {
            assert_eq!(column, "j");
            assert_eq!(check, Check::MaxBytes);
            assert_eq!(accepted_range, "5");
            assert_eq!(detail, "{\"a\":1}".len().to_string());
        }
        other => panic!("expected a failed check, got {:?}", other),
    }
    let t = json_type(Some(7));
    assert!(validate_value(text("{\"a\":1}"), &t, "j", false).is_ok());
    // The size is that of the compact text, not that of the input.
    assert!(validate_value(text("{ \"a\" :   1 }"), &t, "j", false).is_ok());
}

#[test]
fn json_size_of_a_passed_through_string_counts_its_quotes() {
    assert_eq!(validate_value(text("hello"), &json_type(Some(7)), "j", false), Ok(text("hello")));
    match validate_value(text("hello"), &json_type(Some(6)), "j", false) {
        Err(SettingsError::SchemaCheckValidationError { check, accepted_range, detail, .. }) => {
            assert_eq!((check, accepted_range.as_str(), detail.as_str()), (Check::MaxBytes, "6", "7"));
        }
        other => panic!("expected a failed check, got {:?}", other),
    }
}

#[test]
fn json_documents_are_read() {
    let t = json_type(None);
    let got = validate_value(text("{\"b\": [1, 2.5, true, null, \"x\"], \"a\": {\"n\": -3}}"), &t, "j", false).unwrap();
    let m = match got {
        Value::Mapping(m) => m,
        other => panic!("expected a mapping, got {:?}", other),
    };
    assert_eq!(m.len(), 2);
    assert_eq!(
        m.get("b"),
        Some(&Value::List(vec![
            Value::Integer(1),
            Value::Float("2.5".to_string()),
            Value::Boolean(true),
            Value::Null,
            Value::String("x".to_string()),
        ]))
    );
    match m.get("a") {
        Some(Value::Mapping(inner)) => {
            assert_eq!(entries(inner), vec![("n".to_string(), Value::Integer(-3))]);
        }
        other => panic!("expected a mapping, got {:?}", other),
    }
    assert_eq!(
        validate_value(text("[1, \"two\"]"), &t, "j", false),
        Ok(Value::List(vec![Value::Integer(1), text("two")]))
    );
}

#[test]
fn json_syntax_errors_carry_the_parser_message() {
    let t = json_type(None);
    for bad in ["{", "[1,", "{\"a\" 1}", "[1] x"] {
        match validate_value(text(bad), &t, "j", false) {
            Err(SettingsError::SchemaCheckValidationError { column, check, accepted_range, detail }) => {
                assert_eq!(column, "j");
                assert_eq!(check, Check::JsonSyntax);
                assert_eq!(accepted_range, "a JSON document");
                assert_eq!(
                    detail,
                    serde_json::from_str::<serde_json::Value>(bad).unwrap_err().to_string()
                );
            }
            other => panic!("expected a failed check, got {:?}", other),
        }
    }
}

#[test]
fn json_column_takes_any_shape() {
    let t = json_type(Some(100));
    let list = || Value::List(vec![Value::Integer(1), text("a")]);
    assert_eq!(validate_value(list(), &t, "j", false), Ok(list()));
    assert_eq!(validate_value(Value::Integer(5), &t, "j", false), Ok(Value::Integer(5)));
    assert_eq!(validate_value(Value::Boolean(false), &t, "j", false), Ok(Value::Boolean(false)));
    let mut m = ValueMap::new();
    m.insert("k".to_string(), Value::Integer(1));
    assert!(validate_value(Value::Mapping(m), &t, "j", false).is_ok());
    let long = Value::List((0..100).map(Value::Integer).collect());
    match validate_value(long, &t, "j", false) {
        Err(SettingsError::SchemaCheckValidationError { check, accepted_range, detail, .. }) => {
            let text: String = serde_json::to_string(&(0..100).collect::<Vec<i64>>()).unwrap();
            assert_eq!(check, Check::MaxBytes);
            assert_eq!(accepted_range, "100");
            assert_eq!(detail, text.len().to_string());
        }
        other => panic!("expected a failed check, got {:?}", other),
    }
}

#[test]
fn json_null_follows_nullability() {
    assert_eq!(validate_value(Value::Null, &json_type(None), "j", true), Ok(Value::Null));
    assert!(validate_value(Value::Null, &json_type(None), "j", false).is_err());
}

#[test]
fn json_text_round_trip() {
    let j = JsonValue::parse("{\"a\":[1,2.5,\"x\",null,true],\"b\":{\"c\":-1}}").unwrap();
    assert_eq!(
        j.encode(),
        Some("{\"a\":[1,2.5,\"x\",null,true],\"b\":{\"c\":-1}}".to_string())
    );
    assert_eq!(JsonValue::Number("abc".to_string()).encode(), None);
    assert_eq!(JsonValue::String("a\"b".to_string()).encode(), Some("\"a\\\"b\"".to_string()));
    assert!(JsonValue::parse("nope").is_err());
}

#[test]
fn to_json_of_each_kind() {
    assert_eq!(Value::Null.to_json(), Some(JsonValue::Null));
    assert_eq!(Value::Boolean(true).to_json(), Some(JsonValue::Bool(true)));
    assert_eq!(Value::Integer(-12).to_json(), Some(JsonValue::Number("-12".to_string())));
    assert_eq!(Value::Integer(i64::MIN).to_json(), Some(JsonValue::Number(i64::MIN.to_string())));
    assert_eq!(Value::Integer(i64::MAX).to_json(), Some(JsonValue::Number(i64::MAX.to_string())));
    assert_eq!(Value::Integer(0).to_json(), Some(JsonValue::Number("0".to_string())));
    assert_eq!(Value::Interval(90).to_json(), Some(JsonValue::Number("90".to_string())));
    assert_eq!(
        Value::Float("1.50".to_string()).to_json(),
        Some(JsonValue::Number("1.5".to_string()))
    );
    assert_eq!(Value::Float("5".to_string()).to_json(), Some(JsonValue::Number("5.0".to_string())));
    assert_eq!(
        Value::Float("+.5".to_string()).to_json(),
        Some(JsonValue::Number("0.5".to_string()))
    );
    assert_eq!(text("hi").to_json(), Some(JsonValue::String("hi".to_string())));
    assert_eq!(
        Value::Uuid(0xa1a2a3a4_b1b2_c1c2_d1d2_d3d4d5d6d7d8).to_json(),
        Some(JsonValue::String("a1a2a3a4-b1b2-c1c2-d1d2-d3d4d5d6d7d8".to_string()))
    );
    assert_eq!(
        Value::Uuid(0x00000000_0000_0000_0000_00000000000f).to_json(),
        Some(JsonValue::String("00000000-0000-0000-0000-00000000000f".to_string()))
    );
    assert_eq!(
        Value::Timestamp(1_431_648_000_000_000_000).to_json(),
        Some(JsonValue::String("2015-05-15 00:00:00".to_string()))
    );
    assert_eq!(
        Value::TimestampTz(1_431_648_000_000_000_000).to_json(),
        Some(JsonValue::String("2015-05-15 00:00:00 UTC".to_string()))
    );
    let mut m = ValueMap::new();
    m.insert("z".to_string(), Value::Integer(1));
    m.insert("a".to_string(), Value::List(vec![Value::Null]));
    assert_eq!(
        Value::Mapping(m).to_json(),
        Some(JsonValue::Object(vec![
            ("z".to_string(), JsonValue::Number("1".to_string())),
            ("a".to_string(), JsonValue::Array(vec![JsonValue::Null])),
        ]))
    );
    assert_eq!(Value::List(vec![]).to_json(), Some(JsonValue::Array(vec![])));
}

#[test]
fn a_timestamp_that_is_no_date_has_no_json() {
    assert_eq!(Value::Timestamp(i128::MAX).to_json(), None);
    assert_eq!(Value::TimestampTz(i128::MIN).to_json(), None);
    assert_eq!(Value::List(vec![Value::Timestamp(i128::MAX)]).to_json(), None);
    assert_eq!(
        Value::Timestamp(32_503_680_000_000_000_000).to_json(),
        Some(JsonValue::String("3000-01-01 00:00:00".to_string()))
    );
    assert_eq!(
        Value::from_json(&JsonValue::String("3000-01-01 00:00:00".to_string())),
        Value::Timestamp(32_503_680_000_000_000_000)
    );
}

#[test]
fn a_float_that_is_no_number_has_no_json() {
    for bad in ["NaN", "inf", "-inf", "1e999", "", "abc"] {
        let float = || Value::Float(bad.to_string());
        assert_eq!(float().to_json(), None, "for {:?}", bad);
        assert_eq!(Value::List(vec![Value::Integer(1), float()]).to_json(), None);
        let mut m = ValueMap::new();
        m.insert("ok".to_string(), Value::Integer(1));
        m.insert("deep".to_string(), Value::List(vec![Value::List(vec![float()])]));
        assert_eq!(Value::Mapping(m).to_json(), None);
    }
}

#[test]
fn json_column_rejects_a_float_that_is_no_number() {
    for max_bytes in [None, Some(1000)] {
        let t = json_type(max_bytes);
        for v in [
            Value::Float("NaN".to_string()),
            Value::List(vec![Value::Integer(1), Value::Float("inf".to_string())]),
        ] {
            match validate_value(v, &t, "j", false) {
                Err(SettingsError::SchemaCheckValidationError { column, check, accepted_range, detail }) => {
                    assert_eq!(column, "j");
                    assert_eq!(check, Check::JsonEncoding);
                    assert_eq!(accepted_range, "a value that has a JSON text");
                    assert_eq!(detail, "");
                }
                other => panic!("expected a failed check, got {:?}", other),
            }
        }
        assert_eq!(
            validate_value(Value::Float("2.50".to_string()), &t, "j", false),
            Ok(Value::Float("2.50".to_string()))
        );
    }
}

#[test]
fn from_json_of_each_kind() {
    assert_eq!(Value::from_json(&JsonValue::Null), Value::Null);
    assert_eq!(Value::from_json(&JsonValue::Bool(false)), Value::Boolean(false));
    assert_eq!(Value::from_json(&JsonValue::Number("17".to_string())), Value::Integer(17));
    assert_eq!(
        Value::from_json(&JsonValue::Number("17.0".to_string())),
        Value::Float("17.0".to_string())
    );
    assert_eq!(
        Value::from_json(&JsonValue::Number("18446744073709551615".to_string())),
        Value::Float("18446744073709551615".to_string())
    );
    assert_eq!(Value::from_json(&JsonValue::String("plain".to_string())), text("plain"));
    assert_eq!(
        Value::from_json(&JsonValue::String("2015-05-15 00:00:00".to_string())),
        Value::Timestamp(1_431_648_000_000_000_000)
    );
    assert_eq!(
        Value::from_json(&JsonValue::String("2015-05-15T00:00:00+00:00".to_string())),
        Value::TimestampTz(1_431_648_000_000_000_000)
    );
    let object = JsonValue::Object(vec![
        ("k".to_string(), JsonValue::Number("1".to_string())),
        ("l".to_string(), JsonValue::Array(vec![JsonValue::Bool(true)])),
        ("k".to_string(), JsonValue::Number("2".to_string())),
    ]);
    match Value::from_json(&object) {
        Value::Mapping(m) => assert_eq!(
            entries(&m),
            vec![
                ("k".to_string(), Value::Integer(2)),
                ("l".to_string(), Value::List(vec![Value::Boolean(true)])),
            ]
        ),
        other => panic!("expected a mapping, got {:?}", other),
    }
}
