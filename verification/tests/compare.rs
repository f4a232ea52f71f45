use json_diff::align::{compare_jsons, compare_records, read_timestamp, timestamp_field, CompareError, Side};
use json_diff::json::{Json, Num};
use json_diff::key_node::KeyNode;
use json_diff::mismatch::Mismatch;
use json_diff::parse::parse_record;
use json_diff::process::match_json;
use json_diff::timestamp::{parse_instant, Instant};

fn key(name: &str, node: KeyNode) -> (String, KeyNode) {
    (name.to_string(), node)
}

fn num(i: i128) -> Json {
    Json::Number(Num::Int(i))
}

fn stamped(stamp: &str, body: &str) -> String {
    format!("{{\"timestamp\":\"{}\",{}", stamp, body.trim_start().trim_start_matches('{'))
}

const NESTED_LEFT: &str = r#"{
            "a":"b", 
            "b":{
                "c":{
                    "d":true,
                    "e":5,
                    "f":9,
                    "h":{
                        "i":true,
                        "j":false
                    }
                }
            }
        }"#;

const NESTED_RIGHT: &str = r#"{
            "a":"b",
            "b":{
                "c":{
                    "d":true,
                    "e":6,
                    "g":0,
                    "h":{
                        "i":false,
                        "k":false
                    }
                }
            }
        }"#;

fn nested_expected() -> Mismatch {
    let expected_left = KeyNode::Node(vec![key(
        "b",
        KeyNode::Node(vec![key(
            "c",
            KeyNode::Node(vec![
                key("f", KeyNode::Nil),
                key("h", KeyNode::Node(vec![key("j", KeyNode::Nil)])),
            ]),
        )]),
    )]);
    let expected_right = KeyNode::Node(vec![key(
        "b",
        KeyNode::Node(vec![key(
            "c",
            KeyNode::Node(vec![
                key("g", KeyNode::Nil),
                key("h", KeyNode::Node(vec![key("k", KeyNode::Nil)])),
            ]),
        )]),
    )]);
    let expected_uneq = KeyNode::Node(vec![key(
        "b",
        KeyNode::Node(vec![key(
            "c",
            KeyNode::Node(vec![
                key("e", KeyNode::Value(num(5), num(6))),
                key(
                    "h",
                    KeyNode::Node(vec![key("i", KeyNode::Value(Json::Bool(true), Json::Bool(false)))]),
                ),
            ]),
        )]),
    )]);
    Mismatch::new(expected_left, expected_right, expected_uneq, None)
}

#[test]
fn nested_diff() {
    let data1 = NESTED_LEFT;
    let data2 = NESTED_RIGHT;
    let expected = nested_expected();

    let left = parse_record(data1).unwrap();
    let right = parse_record(data2).unwrap();
    let mismatch = match_json(&left, &right);
    assert_eq!(mismatch, expected, "Diff was incorrect.");

    let stamp = "2021-03-04T05:06:07Z";
    let mismatch = compare_jsons(&stamped(stamp, data1), &stamped(stamp, data2));
    assert_eq!(mismatch, Ok(nested_expected()), "Diff was incorrect.");
}

#[test]
fn no_diff() {
    let data1 = r#"{
            "a":"b", 
            "b":{
                "c":{
                    "d":true,
                    "e":5,
                    "f":9,
                    "h":{
                        "i":true,
                        "j":false
                    }
                }
            }
        }"#;
    let data2 = r#"{
            "a":"b", 
            "b":{
                "c":{
                    "d":true,
                    "e":5,
                    "f":9,
                    "h":{
                        "i":true,
                        "j":false
                    }
                }
            }
        }"#;

    assert_eq!(
        match_json(&parse_record(data1).unwrap(), &parse_record(data2).unwrap()),
        Mismatch::new(KeyNode::Nil, KeyNode::Nil, KeyNode::Nil, None)
    );
    let stamp = "2021-03-04T05:06:07Z";
    assert_eq!(
        compare_jsons(&stamped(stamp, data1), &stamped(stamp, data2)),
        Ok(Mismatch::new(KeyNode::Nil, KeyNode::Nil, KeyNode::Nil, None))
    );
}

#[test]
fn no_json() {
    let data1 = r#"{}"#;
    let data2 = r#"{}"#;

    assert_eq!(
        match_json(&parse_record(data1).unwrap(), &parse_record(data2).unwrap()),
        Mismatch::new(KeyNode::Nil, KeyNode::Nil, KeyNode::Nil, None)
    );
}

#[test]
fn records_without_timestamp_are_refused() {
    assert_eq!(compare_jsons(NESTED_LEFT, NESTED_RIGHT), Err(CompareError::BadTimestamp(Side::Left)));
    assert_eq!(compare_jsons("{}", "{}"), Err(CompareError::BadTimestamp(Side::Left)));
    assert_eq!(
        compare_jsons(r#"{"timestamp":"2021-03-04T05:06:07Z"}"#, "{}"),
        Err(CompareError::BadTimestamp(Side::Right))
    );
}

#[test]
fn timestamp_must_be_an_rfc3339_string() {
    let good = r#"{"timestamp":"2021-03-04T05:06:07Z"}"#;
    assert_eq!(
        compare_jsons(r#"{"timestamp":1614834367}"#, good),
        Err(CompareError::BadTimestamp(Side::Left))
    );
    assert_eq!(
        compare_jsons(r#"{"timestamp":"yesterday"}"#, good),
        Err(CompareError::BadTimestamp(Side::Left))
    );
    assert_eq!(
        compare_jsons(good, r#"{"timestamp":"2021-03-04 05:06:07"}"#),
        Err(CompareError::BadTimestamp(Side::Right))
    );
    assert_eq!(compare_jsons(r#"["2021-03-04T05:06:07Z"]"#, good), Err(CompareError::BadTimestamp(Side::Left)));
}

#[test]
fn malformed_json_names_its_side() {
    let good = r#"{"timestamp":"2021-03-04T05:06:07Z"}"#;
    assert_eq!(compare_jsons("{", good), Err(CompareError::MalformedJson(Side::Left)));
    assert_eq!(compare_jsons(good, "{\"a\":}"), Err(CompareError::MalformedJson(Side::Right)));
    assert_eq!(compare_jsons("", ""), Err(CompareError::MalformedJson(Side::Left)));
    assert_eq!(compare_jsons("\n", good), Err(CompareError::MalformedJson(Side::Left)));
    assert_eq!(compare_jsons("{} {}", good), Err(CompareError::MalformedJson(Side::Left)));
}

#[test]
fn left_is_looked_at_first() {
    assert_eq!(compare_jsons("{", "}"), Err(CompareError::MalformedJson(Side::Left)));
    assert_eq!(compare_jsons("{}", "}"), Err(CompareError::MalformedJson(Side::Right)));
}

#[test]
fn earlier_left_record_is_a_missing_event() {
    let left = r#"{"timestamp":"2021-03-04T05:06:07Z","a":1}"#;
    let right = r#"{"timestamp":"2021-03-04T05:06:08Z","a":2}"#;
    assert_eq!(
        compare_jsons(left, right),
        Ok(Mismatch::new(KeyNode::Nil, KeyNode::Nil, KeyNode::Nil, Some(true)))
    );
}

#[test]
fn earlier_right_record_is_a_new_event() {
    let left = r#"{"timestamp":"2021-03-04T05:06:08Z","a":1}"#;
    let right = r#"{"timestamp":"2021-03-04T05:06:07.999999999Z","a":2}"#;
    assert_eq!(
        compare_jsons(left, right),
        Ok(Mismatch::new(KeyNode::Nil, KeyNode::Nil, KeyNode::Nil, Some(false)))
    );
}

#[test]
fn instants_are_compared_not_their_texts() {
    let left = r#"{"timestamp":"2021-03-04T05:06:07Z","a":1}"#;
    let right = r#"{"timestamp":"2021-03-04T06:06:07+01:00","a":1}"#;
    let expected = KeyNode::Node(vec![key(
        "timestamp",
        KeyNode::Value(
            Json::String("2021-03-04T05:06:07Z".to_string()),
            Json::String("2021-03-04T06:06:07+01:00".to_string()),
        ),
    )]);
    assert_eq!(
        compare_jsons(left, right),
        Ok(Mismatch::new(KeyNode::Nil, KeyNode::Nil, expected, None))
    );
}

#[test]
fn parse_instant_reads_seconds_and_nanoseconds() {
    assert_eq!(parse_instant("1970-01-01T00:00:01.5Z"), Some(Instant { seconds: 1, nanos: 500_000_000 }));
    assert_eq!(parse_instant("1970-01-01T01:00:00+01:00"), Some(Instant { seconds: 0, nanos: 0 }));
    assert_eq!(parse_instant("1969-12-31T23:59:59Z"), Some(Instant { seconds: -1, nanos: 0 }));
    assert_eq!(parse_instant("2021-03-04T05:06:07Z"), Some(Instant { seconds: 1_614_834_367, nanos: 0 }));
    assert_eq!(parse_instant("2021-03-04"), None);
    assert_eq!(parse_instant(""), None);
}

#[test]
fn is_before_orders_by_seconds_then_nanoseconds() {
    let a = Instant { seconds: 5, nanos: 999_999_999 };
    let b = Instant { seconds: 6, nanos: 0 };
    let c = Instant { seconds: 6, nanos: 1 };
    assert!(a.is_before(&b));
    assert!(b.is_before(&c));
    assert!(!b.is_before(&a));
    assert!(!b.is_before(&b));
    assert!(Instant { seconds: -2, nanos: 5 }.is_before(&Instant { seconds: -1, nanos: 0 }));
}

#[test]
fn timestamp_field_wants_a_string_member() {
    let record = parse_record(r#"{"a":1,"timestamp":"now"}"#).unwrap();
    assert_eq!(timestamp_field(&record), Some(&"now".to_string()));
    assert_eq!(read_timestamp(&record), None);
    let record = parse_record(r#"{"timestamp":null}"#).unwrap();
    assert_eq!(timestamp_field(&record), None);
    let record = parse_record(r#"{"Timestamp":"2021-03-04T05:06:07Z"}"#).unwrap();
    assert_eq!(timestamp_field(&record), None);
    let record = parse_record(r#""2021-03-04T05:06:07Z""#).unwrap();
    assert_eq!(timestamp_field(&record), None);
    let record = parse_record(r#"{"timestamp":"2021-03-04T05:06:07Z"}"#).unwrap();
    assert_eq!(read_timestamp(&record), Some(Instant { seconds: 1_614_834_367, nanos: 0 }));
}

#[test]
fn compare_records_goes_by_the_instants_given() {
    let left = parse_record(r#"{"a":1}"#).unwrap();
    let right = parse_record(r#"{"a":2}"#).unwrap();
    let t0 = Instant { seconds: 10, nanos: 0 };
    let t1 = Instant { seconds: 10, nanos: 1 };
    let leaf = KeyNode::Node(vec![key("a", KeyNode::Value(num(1), num(2)))]);
    assert_eq!(compare_records(&left, &right, t0, t0), Mismatch::new(KeyNode::Nil, KeyNode::Nil, leaf, None));
    assert_eq!(
        compare_records(&left, &right, t0, t1),
        Mismatch::new(KeyNode::Nil, KeyNode::Nil, KeyNode::Nil, Some(true))
    );
    assert_eq!(
        compare_records(&left, &right, t1, t0),
        Mismatch::new(KeyNode::Nil, KeyNode::Nil, KeyNode::Nil, Some(false))
    );
}
