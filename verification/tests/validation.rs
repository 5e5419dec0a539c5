use ar_settings::cfg::validate_value;
use ar_settings::error::{Check, SettingsError, TypeName};
use ar_settings::floats::float_text_form;
use ar_settings::types::{ColumnType, InnerColumnType};
use ar_settings::value::{Value, ValueMap};
use indexmap::IndexMap;

fn text(s: &str) -> Value {
    Value::String(s.to_string())
}

fn string_type(min: Option<usize>, max: Option<usize>, allowed: &[&str]) -> ColumnType {
    ColumnType::new_scalar(InnerColumnType::String {
        min_length: min,
        max_length: max,
        allowed_values: allowed.iter().map(|s| s.to_string()).collect(),
        kind: "normal".to_string(),
    })
}

fn flags(pairs: &[(&str, i64)]) -> ColumnType {
    let mut values = IndexMap::new();
    for (name, bit) in pairs {
        values.insert(name.to_string(), *bit);
    }
    ColumnType::new_scalar(InnerColumnType::BitFlag { values })
}

fn check_failure(r: Result<Value, SettingsError>) -> (String, Check, String, String) {
    match r {
        Err(SettingsError::SchemaCheckValidationError { column, check, accepted_range, detail }) => {
            (column, check, accepted_range, detail)
        }
        other => panic!("expected a failed check, got {:?}", other),
    }
}

fn type_failure(r: Result<Value, SettingsError>) -> (String, TypeName, TypeName) {
    match r {
        Err(SettingsError::SchemaTypeValidationError { column, expected_type, got_type }) => {
            (column, expected_type, got_type)
        }
        other => panic!("expected a type mismatch, got {:?}", other),
    }
}

#[test]
fn null_is_rejected_where_not_nullable() {
    let types = vec![
        string_type(None, None, &[]),
        ColumnType::new_scalar(InnerColumnType::Integer {}),
        ColumnType::new_array(InnerColumnType::Boolean {}),
        ColumnType::new_scalar(InnerColumnType::Json { kind: "any".to_string(), max_bytes: None }),
        flags(&[("A", 1)]),
    ];
    for t in types.iter() {
        assert_eq!(
            validate_value(Value::Null, t, "col", false),
            Err(SettingsError::SchemaNullValueValidationError { column: "col".to_string() })
        );
    }
}

#[test]
fn null_stays_where_nullable() {
    let types = vec![
        string_type(Some(3), None, &["abc"]),
        ColumnType::new_scalar(InnerColumnType::Float {}),
        ColumnType::new_array(InnerColumnType::Uuid {}),
        flags(&[]),
    ];
    for t in types.iter() {
        assert_eq!(validate_value(Value::Null, t, "col", true), Ok(Value::Null));
    }
}

#[test]
fn bitflag_default_is_first_declared() {
    let t = flags(&[("A", 1), ("B", 2)]);
    assert_eq!(validate_value(Value::Integer(0), &t, "f", false), Ok(Value::Integer(1)));
    let t = flags(&[("B", 2), ("A", 1)]);
    assert_eq!(validate_value(Value::Integer(0), &t, "f", false), Ok(Value::Integer(2)));
}

#[test]
fn bitflag_masks_undeclared_bits() {
    let t = flags(&[("A", 1), ("B", 2)]);
    assert_eq!(validate_value(Value::Integer(5), &t, "f", false), Ok(Value::Integer(1)));
    assert_eq!(validate_value(Value::Integer(7), &t, "f", false), Ok(Value::Integer(3)));
    assert_eq!(validate_value(Value::Integer(4), &t, "f", false), Ok(Value::Integer(1)));
}

#[test]
fn bitflag_needs_all_bits_of_a_flag() {
    let t = flags(&[("LOW", 1), ("BOTH", 6)]);
    assert_eq!(validate_value(Value::Integer(2), &t, "f", false), Ok(Value::Integer(1)));
    assert_eq!(validate_value(Value::Integer(6), &t, "f", false), Ok(Value::Integer(6)));
    assert_eq!(validate_value(Value::Integer(7), &t, "f", false), Ok(Value::Integer(7)));
}

#[test]
fn bitflag_is_idempotent() {
    let t = flags(&[("A", 1), ("B", 2), ("C", 12), ("D", -8)]);
    for input in [-9i64, -1, 0, 1, 2, 3, 5, 8, 12, 13, 255, i64::MAX, i64::MIN] {
        let once = validate_value(Value::Integer(input), &t, "f", false).unwrap();
        let twice = validate_value(once.clone(), &t, "f", false).unwrap();
        assert_eq!(once, twice);
    }
}

#[test]
fn bitflag_reads_integer_text_and_flag_names() {
    let t = flags(&[("A", 1), ("B", 2), ("C", 4)]);
    assert_eq!(validate_value(text("6"), &t, "f", false), Ok(Value::Integer(6)));
    assert_eq!(validate_value(text("A;C"), &t, "f", false), Ok(Value::Integer(5)));
    assert_eq!(validate_value(text("B,C"), &t, "f", false), Ok(Value::Integer(6)));
    assert_eq!(validate_value(text("B"), &t, "f", false), Ok(Value::Integer(2)));
    let (column, check, _, detail) = check_failure(validate_value(text("A;Z"), &t, "f", false));
    assert_eq!((column.as_str(), check, detail.as_str()), ("f", Check::BitFlagSyntax, "A;Z"));
    let (_, check, _, _) = check_failure(validate_value(text(""), &t, "f", false));
    assert_eq!(check, Check::BitFlagSyntax);
    let (_, check, _, _) = check_failure(validate_value(text("A;"), &t, "f", false));
    assert_eq!(check, Check::BitFlagSyntax);
}

#[test]
fn bitflag_without_flags_has_no_default() {
    let t = flags(&[]);
    let (column, check, _, _) = check_failure(validate_value(Value::Integer(3), &t, "f", false));
    assert_eq!((column.as_str(), check), ("f", Check::BitFlagDefault));
}

#[test]
fn bitflag_rejects_other_kinds() {
    let t = flags(&[("A", 1)]);
    assert_eq!(
        type_failure(validate_value(Value::Float("1.5".to_string()), &t, "f", false)),
        ("f".to_string(), TypeName::BitFlag, TypeName::Float)
    );
    assert_eq!(
        type_failure(validate_value(Value::Boolean(true), &t, "f", false)),
        ("f".to_string(), TypeName::BitFlag, TypeName::Boolean)
    );
}

#[test]
fn string_bounds() {
    let t = string_type(Some(2), Some(4), &[]);
    let (column, check, accepted, detail) = check_failure(validate_value(text("a"), &t, "s", false));
    assert_eq!(
        (column.as_str(), check, accepted.as_str(), detail.as_str()),
        ("s", Check::MinLength, "2", "1")
    );
    assert_eq!(validate_value(text("ab"), &t, "s", false), Ok(text("ab")));
    assert_eq!(validate_value(text("abcd"), &t, "s", false), Ok(text("abcd")));
    let (column, check, accepted, detail) =
        check_failure(validate_value(text("abcde"), &t, "s", false));
    assert_eq!(
        (column.as_str(), check, accepted.as_str(), detail.as_str()),
        ("s", Check::MaxLength, "4", "5")
    );
}

#[test]
fn string_length_is_counted_in_bytes() {
    let t = string_type(None, Some(3), &[]);
    // Two characters, four bytes.
    let (_, check, accepted, detail) = check_failure(validate_value(text("éé"), &t, "s", false));
    assert_eq!((check, accepted.as_str(), detail.as_str()), (Check::MaxLength, "3", "4"));
    let t = string_type(Some(12), None, &[]);
    let (_, check, accepted, detail) = check_failure(validate_value(text("0123456789"), &t, "s", false));
    assert_eq!((check, accepted.as_str(), detail.as_str()), (Check::MinLength, "12", "10"));
}

#[test]
fn string_allowed_values() {
    let t = string_type(None, None, &["red", "green", "blue"]);
    assert_eq!(validate_value(text("green"), &t, "s", false), Ok(text("green")));
    let (column, check, accepted, detail) =
        check_failure(validate_value(text("Green"), &t, "s", false));
    assert_eq!(
        (column.as_str(), check, accepted.as_str(), detail.as_str()),
        ("s", Check::AllowedValues, "red, green, blue", "Green")
    );
    let t = string_type(None, None, &["only"]);
    let (_, _, accepted, _) = check_failure(validate_value(text("x"), &t, "s", false));
    assert_eq!(accepted, "only");
}

#[test]
fn string_takes_a_uuid_by_its_text() {
    let t = string_type(None, None, &[]);
    let u = 0xa1a2a3a4_b1b2_c1c2_d1d2_d3d4d5d6d7d8u128;
    assert_eq!(
        validate_value(Value::Uuid(u), &t, "s", false),
        Ok(text("a1a2a3a4-b1b2-c1c2-d1d2-d3d4d5d6d7d8"))
    );
    let t = string_type(None, Some(35), &[]);
    let (_, check, _, detail) = check_failure(validate_value(Value::Uuid(u), &t, "s", false));
    assert_eq!((check, detail.as_str()), (Check::MaxLength, "36"));
}

#[test]
fn string_rejects_other_kinds() {
    let t = string_type(None, None, &[]);
    assert_eq!(
        type_failure(validate_value(Value::Integer(1), &t, "s", false)),
        ("s".to_string(), TypeName::String, TypeName::Integer)
    );
    assert_eq!(
        type_failure(validate_value(Value::List(vec![text("a")]), &t, "s", false)),
        ("s".to_string(), TypeName::String, TypeName::List)
    );
    assert_eq!(
        type_failure(validate_value(Value::Mapping(ValueMap::new()), &t, "s", false)),
        ("s".to_string(), TypeName::String, TypeName::Mapping)
    );
}

#[test]
fn integer_column() {
    let t = ColumnType::new_scalar(InnerColumnType::Integer {});
    assert_eq!(validate_value(Value::Integer(-7), &t, "i", false), Ok(Value::Integer(-7)));
    assert_eq!(validate_value(text("42"), &t, "i", false), Ok(Value::Integer(42)));
    assert_eq!(validate_value(text("-42"), &t, "i", false), Ok(Value::Integer(-42)));
    assert_eq!(validate_value(text("+42"), &t, "i", false), Ok(Value::Integer(42)));
    assert_eq!(
        validate_value(text("9223372036854775807"), &t, "i", false),
        Ok(Value::Integer(i64::MAX))
    );
    assert_eq!(
        validate_value(text("-9223372036854775808"), &t, "i", false),
        Ok(Value::Integer(i64::MIN))
    );
    for bad in ["", "-", "+", "9223372036854775808", "-9223372036854775809", "1.0", " 1", "1 ", "0x10", "1e3", "١٢"] {
        let (column, check, accepted, detail) =
            check_failure(validate_value(text(bad), &t, "i", false));
        assert_eq!(
            (column.as_str(), check, accepted.as_str(), detail.as_str()),
            ("i", Check::IntegerSyntax, "a base-10 signed 64-bit integer", bad)
        );
        assert!(bad.parse::<i64>().is_err());
    }
    assert_eq!(
        type_failure(validate_value(Value::Float("1.0".to_string()), &t, "i", false)),
        ("i".to_string(), TypeName::Integer, TypeName::Float)
    );
    assert_eq!(
        type_failure(validate_value(Value::Boolean(true), &t, "i", false)),
        ("i".to_string(), TypeName::Integer, TypeName::Boolean)
    );
}

#[test]
fn integer_text_agrees_with_the_standard_parser() {
    let t = ColumnType::new_scalar(InnerColumnType::Integer {});
    for s in ["0", "-0", "+0", "007", "-00012", "123456789012345678", "99999999999999999999", "--1", "+-1", "1-", "12a"] {
        let got = validate_value(text(s), &t, "i", false).ok();
        let want = s.parse::<i64>().ok().map(Value::Integer);
        assert_eq!(got, want, "for {:?}", s);
    }
}

#[test]
fn float_column() {
    let t = ColumnType::new_scalar(InnerColumnType::Float {});
    let f = |s: &str| Value::Float(s.to_string());
    assert_eq!(validate_value(f("1.5"), &t, "x", false), Ok(f("1.5")));
    assert_eq!(validate_value(text("1.5"), &t, "x", false), Ok(f("1.5")));
    assert_eq!(validate_value(text("1.50"), &t, "x", false), Ok(f("1.5")));
    assert_eq!(validate_value(text("-2.5e3"), &t, "x", false), Ok(f("-2500.0")));
    assert_eq!(validate_value(text("5"), &t, "x", false), Ok(f("5.0")));
    assert_eq!(validate_value(f("5"), &t, "x", false), Ok(f("5.0")));
    assert_eq!(validate_value(text("-3"), &t, "x", false), Ok(f("-3.0")));
    for bad in ["", "abc", "NaN", "inf", "1e999", "1.5x", "--1"] {
        let (column, check, _, detail) = check_failure(validate_value(text(bad), &t, "x", false));
        assert_eq!((column.as_str(), check, detail.as_str()), ("x", Check::FloatSyntax, bad));
    }
    let (_, check, _, _) = check_failure(validate_value(f("NaN"), &t, "x", false));
    assert_eq!(check, Check::FloatSyntax);
    assert_eq!(
        type_failure(validate_value(Value::Integer(5), &t, "x", false)),
        ("x".to_string(), TypeName::Float, TypeName::Integer)
    );
}

#[test]
fn float_text_matches_the_platform_float() {
    let t = ColumnType::new_scalar(InnerColumnType::Float {});
    for s in ["0.1", "3.14159", "1e10", "2.5E-3", "123456789.125", "-0.0", "7"] {
        let want: f64 = s.parse().unwrap();
        match validate_value(text(s), &t, "x", false) {
            Ok(Value::Float(got)) => {
                let got: f64 = got.parse().unwrap();
                assert_eq!(got.to_bits(), want.to_bits(), "for {:?}", s);
            }
            other => panic!("expected a float for {:?}, got {:?}", s, other),
        }
    }
}

#[test]
fn float_texts_are_those_of_the_platform() {
    let t = ColumnType::new_scalar(InnerColumnType::Float {});
    let texts = [
        "0", "-0", "+0", "1", "+1.5", "-1.5", ".5", "-.5", "+.5", "5.", "-5.", "00.5", "007",
        "0.0", "1e5", "1E5", "1e+5", "1e-5", "1.e3", ".5e3", "1e05", "12.5e-3", "", ".", "-",
        "+", "e5", "1e", "1e+", "1.5.2", "1,5", " 1", "1 ", "1_0", "0x10", "inf", "-inf",
        "infinity", "nan", "NaN", "1e999", "-1e999", "1e-999", "١", "--1", "+-1", "1e5.5",
        "123456789012345678901234567890", "0.000000000000000000000000000001",
    ];
    for s in texts {
        let want = s.parse::<f64>().ok().filter(|f| f.is_finite());
        match (validate_value(text(s), &t, "x", false), want) {
            (Ok(Value::Float(got)), Some(want)) => {
                let got: f64 = got.parse().unwrap();
                assert_eq!(got.to_bits(), want.to_bits(), "for {:?}", s);
            }
            (Err(SettingsError::SchemaCheckValidationError { check, detail, .. }), None) => {
                assert_eq!((check, detail.as_str()), (Check::FloatSyntax, s));
            }
            (got, want) => panic!("for {:?}: got {:?}, the platform reads {:?}", s, got, want),
        }
    }
}

#[test]
fn float_forms() {
    let form = |s: &str| float_text_form(s);
    assert_eq!(form("+1.5"), Some("1.5".to_string()));
    assert_eq!(form("-007.50"), Some("-7.50".to_string()));
    assert_eq!(form(".5"), Some("0.5".to_string()));
    assert_eq!(form("5."), Some("5.0".to_string()));
    assert_eq!(form("-.5E-3"), Some("-0.5E-3".to_string()));
    assert_eq!(form("000"), Some("0".to_string()));
    assert_eq!(form("1.e3"), Some("1.0e3".to_string()));
    assert_eq!(form("12"), Some("12".to_string()));
    assert_eq!(form("."), None);
    assert_eq!(form("1e"), None);
    assert_eq!(form("1 "), None);
    assert_eq!(form(""), None);
}

#[test]
fn boolean_column() {
    let t = ColumnType::new_scalar(InnerColumnType::Boolean {});
    assert_eq!(validate_value(Value::Boolean(true), &t, "b", false), Ok(Value::Boolean(true)));
    assert_eq!(validate_value(text("true"), &t, "b", false), Ok(Value::Boolean(true)));
    assert_eq!(validate_value(text("false"), &t, "b", false), Ok(Value::Boolean(false)));
    for bad in ["", "True", "FALSE", "1", "yes", "true "] {
        let (column, check, accepted, detail) =
            check_failure(validate_value(text(bad), &t, "b", false));
        assert_eq!(
            (column.as_str(), check, accepted.as_str(), detail.as_str()),
            ("b", Check::BooleanSyntax, "true or false", bad)
        );
        assert!(bad.parse::<bool>().is_err());
    }
    assert_eq!(
        type_failure(validate_value(Value::Integer(1), &t, "b", false)),
        ("b".to_string(), TypeName::Boolean, TypeName::Integer)
    );
}

#[test]
fn uuid_column() {
    let t = ColumnType::new_scalar(InnerColumnType::Uuid {});
    let u = 0x550e8400_e29b_41d4_a716_446655440000u128;
    assert_eq!(validate_value(Value::Uuid(u), &t, "u", false), Ok(Value::Uuid(u)));
    assert_eq!(
        validate_value(text("550e8400-e29b-41d4-a716-446655440000"), &t, "u", false),
        Ok(Value::Uuid(u))
    );
    assert_eq!(
        validate_value(text("550E8400E29B41D4A716446655440000"), &t, "u", false),
        Ok(Value::Uuid(u))
    );
    let (column, check, accepted, detail) =
        check_failure(validate_value(text("not-a-uuid"), &t, "u", false));
    assert_eq!((column.as_str(), check, accepted.as_str()), ("u", Check::UuidSyntax, "a UUID"));
    assert_eq!(detail, uuid::Uuid::parse_str("not-a-uuid").unwrap_err().to_string());
    assert_eq!(
        type_failure(validate_value(Value::Integer(1), &t, "u", false)),
        ("u".to_string(), TypeName::Uuid, TypeName::Integer)
    );
}

#[test]
fn timestamp_column() {
    let t = ColumnType::new_scalar(InnerColumnType::Timestamp {});
    // 2015-05-15 00:00:00 is 1431648000 seconds after the epoch.
    let n = 1_431_648_000_000_000_000i128;
    assert_eq!(validate_value(text("2015-05-15 00:00:00"), &t, "t", false), Ok(Value::Timestamp(n)));
    assert_eq!(
        validate_value(text("1970-01-01 00:00:01"), &t, "t", false),
        Ok(Value::Timestamp(1_000_000_000))
    );
    assert_eq!(
        validate_value(text("1969-12-31 23:59:59"), &t, "t", false),
        Ok(Value::Timestamp(-1_000_000_000))
    );
    assert_eq!(validate_value(Value::Timestamp(n), &t, "t", false), Ok(Value::Timestamp(n)));
    assert_eq!(validate_value(Value::TimestampTz(n), &t, "t", false), Ok(Value::Timestamp(n)));
    let (column, check, accepted, detail) =
        check_failure(validate_value(text("2015-05-15T00:00:00Z"), &t, "t", false));
    assert_eq!(
        (column.as_str(), check, accepted.as_str()),
        ("t", Check::TimestampSyntax, "%Y-%m-%d %H:%M:%S")
    );
    assert_eq!(
        detail,
        chrono::NaiveDateTime::parse_from_str("2015-05-15T00:00:00Z", "%Y-%m-%d %H:%M:%S")
            .unwrap_err()
            .to_string()
    );
    // Dates far from the epoch are held as well.
    assert_eq!(
        validate_value(text("3000-01-01 00:00:00"), &t, "t", false),
        Ok(Value::Timestamp(32_503_680_000_000_000_000))
    );
    assert_eq!(
        validate_value(text("0001-01-01 00:00:00"), &t, "t", false),
        Ok(Value::Timestamp(-62_135_596_800_000_000_000))
    );
    let far = chrono::NaiveDate::from_ymd_opt(-200_000, 3, 4).unwrap().and_hms_opt(5, 6, 7).unwrap();
    assert_eq!(
        validate_value(text("-200000-03-04 05:06:07"), &t, "t", false),
        Ok(Value::Timestamp(far.and_utc().timestamp() as i128 * 1_000_000_000))
    );
    assert_eq!(
        type_failure(validate_value(Value::Integer(1), &t, "t", false)),
        ("t".to_string(), TypeName::Timestamp, TypeName::Integer)
    );
}

#[test]
fn timestamp_tz_column() {
    let t = ColumnType::new_scalar(InnerColumnType::TimestampTz {});
    let n = 1_431_648_000_000_000_000i128;
    assert_eq!(
        validate_value(text("2015-05-15T00:00:00Z"), &t, "t", false),
        Ok(Value::TimestampTz(n))
    );
    assert_eq!(
        validate_value(text("2015-05-15T02:00:00.5+02:00"), &t, "t", false),
        Ok(Value::TimestampTz(n + 500_000_000))
    );
    assert_eq!(validate_value(Value::TimestampTz(n), &t, "t", false), Ok(Value::TimestampTz(n)));
    assert_eq!(validate_value(Value::Timestamp(n), &t, "t", false), Ok(Value::TimestampTz(n)));
    let (column, check, accepted, detail) =
        check_failure(validate_value(text("yesterday"), &t, "t", false));
    assert_eq!(
        (column.as_str(), check, accepted.as_str()),
        ("t", Check::TimestampTzSyntax, "an RFC 3339 date and time")
    );
    assert_eq!(
        detail,
        chrono::DateTime::parse_from_rfc3339("yesterday").unwrap_err().to_string()
    );
    assert_eq!(
        validate_value(text("1500-01-01T00:00:00Z"), &t, "t", false),
        Ok(Value::TimestampTz(-14_831_769_600_000_000_000))
    );
    assert_eq!(
        validate_value(text("1969-12-31T23:59:59.25Z"), &t, "t", false),
        Ok(Value::TimestampTz(-750_000_000))
    );
}

#[test]
fn interval_column() {
    let t = ColumnType::new_scalar(InnerColumnType::Interval {});
    let cases: Vec<(&str, i64)> = vec![
        ("5s", 5), ("5sec", 5), ("5secs", 5), ("5second", 5), ("5seconds", 5),
        ("3m", 180), ("3min", 180), ("3mins", 180), ("3minute", 180), ("3minutes", 180),
        ("2h", 7200), ("2hr", 7200), ("2hrs", 7200), ("2hour", 7200), ("2hours", 7200),
        ("1d", 86400), ("1day", 86400), ("10days", 864000),
        ("1w", 604800), ("1week", 604800), ("2weeks", 1209600),
        ("15 minutes", 900), ("15   m", 900), ("15\tm", 900), ("0s", 0), ("007d", 604800),
        ("15\u{a0}m", 900), ("15\n\r m", 900), ("15\u{2003}\u{3000}min", 900),
        ("9223372036854775807s", i64::MAX),
    ];
    for (s, seconds) in cases {
        assert_eq!(validate_value(text(s), &t, "i", false), Ok(Value::Interval(seconds)), "for {:?}", s);
    }
    assert_eq!(validate_value(Value::Interval(-5), &t, "i", false), Ok(Value::Interval(-5)));
    for bad in ["", "5", "s", "5 x", "5y", "-5s", " 5s", "5s ", "5 s 6", "5_s", "5\u{200b}s", "5\u{a0}", "9223372036854775808s", "9223372036854775807m", "1.5h", "5S"] {
        let (column, check, accepted, detail) =
            check_failure(validate_value(text(bad), &t, "i", false));
        assert_eq!(
            (column.as_str(), check, accepted.as_str(), detail.as_str()),
            ("i", Check::IntervalSyntax, "a number followed by a unit of time", bad)
        );
    }
    assert_eq!(
        type_failure(validate_value(Value::Integer(5), &t, "i", false)),
        ("i".to_string(), TypeName::Interval, TypeName::Integer)
    );
}

#[test]
fn array_validation_distributes() {
    let t = ColumnType::new_array(InnerColumnType::Integer {});
    let input = Value::List(vec![Value::Integer(1), Value::Integer(2), text("x")]);
    let (column, check, _, detail) = check_failure(validate_value(input, &t, "arr", false));
    assert_eq!((column.as_str(), check, detail.as_str()), ("arr", Check::IntegerSyntax, "x"));
    let input = Value::List(vec![Value::Integer(1), Value::Boolean(true), text("x")]);
    assert_eq!(
        type_failure(validate_value(input, &t, "arr", false)),
        ("arr".to_string(), TypeName::Integer, TypeName::Boolean)
    );
    let input = Value::List(vec![Value::Integer(1), Value::Integer(2), Value::Integer(3)]);
    assert_eq!(
        validate_value(input, &t, "arr", false),
        Ok(Value::List(vec![Value::Integer(1), Value::Integer(2), Value::Integer(3)]))
    );
    let input = Value::List(vec![text("3"), Value::Integer(2), text("-1")]);
    assert_eq!(
        validate_value(input, &t, "arr", false),
        Ok(Value::List(vec![Value::Integer(3), Value::Integer(2), Value::Integer(-1)]))
    );
    assert_eq!(validate_value(Value::List(vec![]), &t, "arr", false), Ok(Value::List(vec![])));
}

#[test]
fn array_needs_a_list() {
    let t = ColumnType::new_array(InnerColumnType::Integer {});
    assert_eq!(
        type_failure(validate_value(Value::Integer(1), &t, "arr", false)),
        ("arr".to_string(), TypeName::List, TypeName::Integer)
    );
    assert_eq!(
        type_failure(validate_value(text("1,2"), &t, "arr", true)),
        ("arr".to_string(), TypeName::List, TypeName::String)
    );
}

#[test]
fn array_items_share_the_nullability() {
    let t = ColumnType::new_array(InnerColumnType::Integer {});
    let input = || Value::List(vec![Value::Integer(1), Value::Null]);
    assert_eq!(
        validate_value(input(), &t, "arr", true),
        Ok(Value::List(vec![Value::Integer(1), Value::Null]))
    );
    assert_eq!(
        validate_value(input(), &t, "arr", false),
        Err(SettingsError::SchemaNullValueValidationError { column: "arr".to_string() })
    );
}

#[test]
fn array_reports_the_first_failing_item() {
    let t = ColumnType::new_array(InnerColumnType::Boolean {});
    let input = Value::List(vec![text("true"), text("maybe"), Value::Integer(1)]);
    let (_, check, _, detail) = check_failure(validate_value(input, &t, "arr", false));
    assert_eq!((check, detail.as_str()), (Check::BooleanSyntax, "maybe"));
}

#[test]
fn scalar_rejects_a_list() {
    let t = ColumnType::new_scalar(InnerColumnType::Integer {});
    assert_eq!(
        type_failure(validate_value(Value::List(vec![Value::Integer(1)]), &t, "i", false)),
        ("i".to_string(), TypeName::Integer, TypeName::List)
    );
}

#[test]
fn column_type_shape() {
    let scalar = ColumnType::new_scalar(InnerColumnType::Integer {});
    let array = ColumnType::new_array(InnerColumnType::Integer {});
    assert!(scalar.is_scalar() && !scalar.is_array());
    assert!(array.is_array() && !array.is_scalar());
    assert_eq!(scalar, ColumnType::Scalar { inner: InnerColumnType::Integer {} });
    assert_eq!(array, ColumnType::Array { inner: InnerColumnType::Integer {} });
}
