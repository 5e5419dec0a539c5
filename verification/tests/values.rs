use ar_settings::types::OperationType;
use ar_settings::value::{Value, ValueMap};
use std::collections::hash_map::DefaultHasher;
use std::hash::{Hash, Hasher};

fn text(s: &str) -> Value {
    Value::String(s.to_string())
}

fn hash_of(v: &Value) -> u64 {
    let mut h = DefaultHasher::new();
    v.hash(&mut h);
    h.finish()
}

fn sample_map() -> ValueMap {
    let mut m = ValueMap::new();
    m.insert("b".to_string(), Value::Integer(2));
    m.insert("a".to_string(), Value::List(vec![Value::Null, text("x")]));
    m
}

fn one_of_each() -> Vec<Value> {
    vec![
        Value::Uuid(0x550e8400_e29b_41d4_a716_446655440000),
        text("hello"),
        Value::Timestamp(1_431_648_000_000_000_000),
        Value::TimestampTz(1_431_648_000_000_000_000),
        Value::Interval(93_784),
        Value::Integer(-5),
        Value::Float("2.5".to_string()),
        Value::Boolean(true),
        Value::List(vec![Value::Integer(1), text("two")]),
        Value::Mapping(sample_map()),
        Value::Null,
    ]
}

#[test]
fn display_of_each_kind() {
    let shown: Vec<String> = one_of_each().iter().map(|v| v.to_string()).collect();
    assert_eq!(
        shown,
        vec![
            "550e8400-e29b-41d4-a716-446655440000",
            "hello",
            "2015-05-15 00:00:00",
            "2015-05-15 00:00:00 UTC",
            "1d 2h 3m 4s",
            "-5",
            "2.5",
            "true",
            "[1, two]",
            "{b: 2, a: [None, x]}",
            "None",
        ]
    );
    assert_eq!(Value::Boolean(false).to_string(), "false");
    assert_eq!(Value::List(vec![]).to_string(), "[]");
    assert_eq!(Value::Mapping(ValueMap::new()).to_string(), "{}");
    assert_eq!(Value::Integer(i64::MIN).to_string(), "-9223372036854775808");
    assert_eq!(Value::Timestamp(1_500_000_000).to_string(), "1970-01-01 00:00:01.500");
    assert_eq!(Value::Timestamp(-750_000_000).to_string(), "1969-12-31 23:59:59.250");
    assert_eq!(Value::Timestamp(-1).to_string(), "1969-12-31 23:59:59.999999999");
    assert_eq!(Value::Timestamp(32_503_680_000_000_000_000).to_string(), "3000-01-01 00:00:00");
    assert_eq!(
        Value::TimestampTz(-62_135_596_800_000_000_000).to_string(),
        "0001-01-01 00:00:00 UTC"
    );
    // Beyond what a date can be, nothing is written.
    assert_eq!(Value::Timestamp(i128::MAX).to_string(), "");
    assert_eq!(Value::TimestampTz(i128::MIN).to_string(), "");
    assert_eq!(Value::Timestamp(9_223_372_036_854_775_807_999_999_999).to_string(), "");
}

#[test]
fn display_of_intervals() {
    let cases: Vec<(i64, &str)> = vec![
        (0, ""),
        (-5, ""),
        (i64::MIN, ""),
        (4, "4s"),
        (60, "1m "),
        (61, "1m 1s"),
        (3600, "1h "),
        (3661, "1h 1m 1s"),
        (86400, "1d "),
        (86400 * 3 + 5, "3d 5s"),
        (86399, "23h 59m 59s"),
        (i64::MAX, "106751991167300d 15h 30m 7s"),
    ];
    for (seconds, want) in cases {
        assert_eq!(Value::Interval(seconds).to_string(), want, "for {}", seconds);
    }
}

#[test]
fn getters() {
    let all = one_of_each();
    assert_eq!(all.iter().filter_map(|v| v.as_uuid()).collect::<Vec<_>>(), vec![0x550e8400_e29b_41d4_a716_446655440000]);
    assert_eq!(all.iter().filter_map(|v| v.as_string()).collect::<Vec<_>>(), vec!["hello"]);
    assert_eq!(all.iter().filter_map(|v| v.as_timestamp()).collect::<Vec<_>>(), vec![1_431_648_000_000_000_000]);
    assert_eq!(all.iter().filter_map(|v| v.as_timestamp_tz()).collect::<Vec<_>>(), vec![1_431_648_000_000_000_000]);
    assert_eq!(all.iter().filter_map(|v| v.as_interval()).collect::<Vec<_>>(), vec![93_784]);
    assert_eq!(all.iter().filter_map(|v| v.as_i64()).collect::<Vec<_>>(), vec![-5]);
    assert_eq!(all.iter().filter_map(|v| v.as_u64()).collect::<Vec<_>>(), vec![(-5i64) as u64]);
    assert_eq!(all.iter().filter_map(|v| v.as_bool()).collect::<Vec<_>>(), vec![true]);
    assert_eq!(
        all.iter().filter_map(|v| v.as_array()).collect::<Vec<_>>(),
        vec![&vec![Value::Integer(1), text("two")]]
    );
    assert_eq!(all.iter().filter_map(|v| v.as_map()).count(), 1);
    assert_eq!(all.iter().filter_map(|v| v.as_object()).count(), 1);
    assert_eq!(all[9].as_map(), Some(&sample_map()));
    assert_eq!(all[9].as_object(), all[9].as_map());
    assert_eq!(all.iter().filter(|v| v.as_none()).count(), 1);
    assert!(Value::Null.as_none());
    assert_eq!(Value::Integer(7).as_u64(), Some(7));
}

#[test]
fn clone_is_deep_and_equal() {
    for v in one_of_each() {
        let copy = v.clone();
        assert_eq!(copy, v);
        assert_eq!(hash_of(&copy), hash_of(&v));
    }
    let mut m = sample_map();
    let copy = m.clone();
    m.insert("c".to_string(), Value::Null);
    assert_eq!(copy.len(), 2);
    assert_eq!(m.len(), 3);
}

#[test]
fn hashing_tells_values_apart() {
    let all = one_of_each();
    for (i, a) in all.iter().enumerate() {
        for (j, b) in all.iter().enumerate() {
            if i != j {
                assert_ne!(hash_of(a), hash_of(b), "{:?} and {:?}", a, b);
            }
        }
    }
    let mut reordered = ValueMap::new();
    reordered.insert("a".to_string(), Value::List(vec![Value::Null, text("x")]));
    reordered.insert("b".to_string(), Value::Integer(2));
    assert_ne!(hash_of(&Value::Mapping(reordered)), hash_of(&Value::Mapping(sample_map())));
}

#[test]
fn map_keeps_insertion_order_and_unique_keys() {
    let mut m = ValueMap::new();
    assert_eq!(m.len(), 0);
    assert_eq!(m.insert("a".to_string(), Value::Integer(1)), None);
    assert_eq!(m.insert("b".to_string(), Value::Integer(2)), None);
    assert_eq!(m.insert("c".to_string(), Value::Integer(3)), None);
    assert_eq!(m.insert("a".to_string(), Value::Integer(10)), Some(Value::Integer(1)));
    assert_eq!(m.len(), 3);
    assert_eq!(m.get_index(0), Some((&"a".to_string(), &Value::Integer(10))));
    assert_eq!(m.get_index(1), Some((&"b".to_string(), &Value::Integer(2))));
    assert_eq!(m.get_index(2), Some((&"c".to_string(), &Value::Integer(3))));
    assert_eq!(m.get_index(3), None);
    assert_eq!(m.get("b"), Some(&Value::Integer(2)));
    assert_eq!(m.get("z"), None);
    assert!(m.contains_key("c") && !m.contains_key("z"));
    assert_eq!(m.keys(), vec!["a".to_string(), "b".to_string(), "c".to_string()]);
    assert_eq!(ValueMap::new().keys(), Vec::<String>::new());
}

#[test]
fn map_swap_remove_moves_the_last_entry() {
    let mut m = ValueMap::new();
    for (i, k) in ["a", "b", "c", "d"].iter().enumerate() {
        m.insert(k.to_string(), Value::Integer(i as i64));
    }
    assert_eq!(m.swap_remove("b"), Some(Value::Integer(1)));
    assert_eq!(m.get_index(0), Some((&"a".to_string(), &Value::Integer(0))));
    assert_eq!(m.get_index(1), Some((&"d".to_string(), &Value::Integer(3))));
    assert_eq!(m.get_index(2), Some((&"c".to_string(), &Value::Integer(2))));
    assert_eq!(m.len(), 3);
    assert_eq!(m.swap_remove("b"), None);
    assert_eq!(m.len(), 3);
    assert_eq!(m.swap_remove("c"), Some(Value::Integer(2)));
    assert_eq!(m.get_index(1), Some((&"d".to_string(), &Value::Integer(3))));
    assert_eq!(m.len(), 2);
    assert!(!m.contains_key("c"));
}

#[test]
fn operation_names() {
    assert_eq!(OperationType::View.to_string(), "View");
    assert_eq!(OperationType::Create.to_string(), "Create");
    assert_eq!(OperationType::Update.to_string(), "Update");
    assert_eq!(OperationType::Delete.to_string(), "Delete");
}
