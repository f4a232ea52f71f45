use json_diff::json::{same_json, Json, Num};
use json_diff::key_node::{same_node, KeyNode};
use json_diff::mismatch::{same_mismatch, Mismatch};
use json_diff::parse::parse_record;
use json_diff::process::match_json;

fn key(name: &str, node: KeyNode) -> (String, KeyNode) {
    (name.to_string(), node)
}

fn member(name: &str, value: Json) -> (String, Json) {
    (name.to_string(), value)
}

fn num(i: i128) -> Json {
    Json::Number(Num::Int(i))
}

fn text(s: &str) -> Json {
    Json::String(s.to_string())
}

fn read(s: &str) -> Json {
    parse_record(s).unwrap()
}

fn nothing() -> Mismatch {
    Mismatch::new(KeyNode::Nil, KeyNode::Nil, KeyNode::Nil, None)
}

#[test]
fn parse_record_builds_each_kind_of_value() {
    assert_eq!(read("null"), Json::Null);
    assert_eq!(read("true"), Json::Bool(true));
    assert_eq!(read("17"), num(17));
    assert_eq!(read("-17"), num(-17));
    assert_eq!(read("18446744073709551615"), num(18446744073709551615));
    assert_eq!(read("-9223372036854775808"), num(-9223372036854775808));
    assert_eq!(read("1.5"), Json::Number(Num::Float(1.5f64.to_bits())));
    assert_eq!(read("\"a\\nb\""), text("a\nb"));
    assert_eq!(read("[1,[2],\"x\"]"), Json::Array(vec![num(1), Json::Array(vec![num(2)]), text("x")]));
    assert_eq!(
        read(r#"{"b":{"c":null},"a":[]}"#),
        Json::Object(vec![
            member("a", Json::Array(vec![])),
            member("b", Json::Object(vec![member("c", Json::Null)])),
        ])
    );
}

#[test]
fn parse_record_refuses_what_is_not_json() {
    assert!(parse_record("").is_none());
    assert!(parse_record("{").is_none());
    assert!(parse_record("{'a':1}").is_none());
    assert!(parse_record("1 2").is_none());
    assert!(parse_record("nul").is_none());
}

#[test]
fn parse_record_keeps_one_member_for_a_repeated_key() {
    let v = read(r#"{"a":1,"a":2}"#);
    match v {
        Json::Object(members) => assert_eq!(members.len(), 1),
        _ => panic!("an object was expected"),
    }
}

#[test]
fn objects_are_equal_in_any_order() {
    let a = Json::Object(vec![member("x", num(1)), member("y", text("t"))]);
    let b = Json::Object(vec![member("y", text("t")), member("x", num(1))]);
    assert!(same_json(&a, &b));
    assert_eq!(a, b);
    let c = Json::Object(vec![member("x", num(1))]);
    assert!(!same_json(&a, &c));
    assert!(!same_json(&c, &a));
    let d = Json::Object(vec![member("x", num(1)), member("y", text("u"))]);
    assert!(a != d);
}

#[test]
fn arrays_are_equal_in_order_only() {
    let a = Json::Array(vec![num(1), num(2)]);
    let b = Json::Array(vec![num(2), num(1)]);
    assert!(same_json(&a, &a.clone()));
    assert!(!same_json(&a, &b));
    assert!(!same_json(&a, &Json::Array(vec![num(1)])));
}

#[test]
fn numbers_are_equal_by_kind_and_value() {
    assert!(same_json(&read("1"), &read("1")));
    assert!(!same_json(&read("1"), &read("1.0")));
    assert!(!same_json(&read("1"), &read("-1")));
    assert!(same_json(&read("0.0"), &read("-0.0")));
    assert!(same_json(&read("1e2"), &read("100.0")));
    assert!(!same_json(&read("0"), &read("0.0")));
    assert!(!same_json(&read("1.5"), &read("2.5")));
}

#[test]
fn values_of_different_kinds_are_not_equal() {
    assert!(!same_json(&Json::Null, &Json::Bool(false)));
    assert!(!same_json(&text("1"), &num(1)));
    assert!(!same_json(&Json::Array(vec![]), &Json::Object(vec![])));
    assert!(same_json(&Json::Null, &Json::Null));
}

#[test]
fn clone_is_deep_and_equal() {
    let a = read(r#"{"a":[1,{"b":"c"}],"d":{"e":1.25}}"#);
    let b = a.clone();
    assert_eq!(a, b);
}

#[test]
fn equal_objects_do_not_differ() {
    let a = Json::Object(vec![
        member("x", num(1)),
        member("y", Json::Object(vec![member("p", Json::Null), member("q", text("t"))])),
    ]);
    let b = Json::Object(vec![
        member("y", Json::Object(vec![member("q", text("t")), member("p", Json::Null)])),
        member("x", num(1)),
    ]);
    assert_eq!(match_json(&a, &b), nothing());
    assert_eq!(match_json(&b, &a), nothing());
    assert!(match_json(&a, &a.clone()).is_empty());
}

#[test]
fn swapping_sides_swaps_the_trees() {
    let a = read(r#"{"a":"b","b":{"c":{"d":true,"e":5,"f":9,"h":{"i":true,"j":false}}}}"#);
    let b = read(r#"{"a":"b","b":{"c":{"d":true,"e":6,"g":0,"h":{"i":false,"k":false}}}}"#);
    let ab = match_json(&a, &b);
    let ba = match_json(&b, &a);
    assert_eq!(ab.left_only_keys, ba.right_only_keys);
    assert_eq!(ab.right_only_keys, ba.left_only_keys);
    let mut forward = Vec::new();
    let mut backward = Vec::new();
    ab.keys_in_both.absolute_keys(&mut forward, None);
    ba.keys_in_both.absolute_keys(&mut backward, None);
    forward.sort();
    backward.sort();
    assert_eq!(forward, backward);
    let mirrored = KeyNode::Node(vec![key(
        "b",
        KeyNode::Node(vec![key(
            "c",
            KeyNode::Node(vec![
                key("e", KeyNode::Value(num(6), num(5))),
                key("h", KeyNode::Node(vec![key("i", KeyNode::Value(Json::Bool(false), Json::Bool(true)))])),
            ]),
        )]),
    )]);
    assert_eq!(ba.keys_in_both, mirrored);
}

#[test]
fn no_branch_is_empty() {
    let a = read(r#"{"same":{"deep":{"x":1}},"other":{"y":[1,2]}}"#);
    let b = read(r#"{"same":{"deep":{"x":1}},"other":{"y":[1,2]}}"#);
    let m = match_json(&a, &b);
    assert!(m.left_only_keys.is_nil());
    assert!(m.right_only_keys.is_nil());
    assert!(m.keys_in_both.is_nil());

    let a = read(r#"{"o":{"p":{"only_left":1}}}"#);
    let b = read(r#"{"o":{"p":{}}}"#);
    let m = match_json(&a, &b);
    assert_eq!(
        m.left_only_keys,
        KeyNode::Node(vec![key("o", KeyNode::Node(vec![key("p", KeyNode::Node(vec![key("only_left", KeyNode::Nil)]))]))])
    );
    assert_eq!(m.right_only_keys, KeyNode::Nil);
    assert_eq!(m.keys_in_both, KeyNode::Nil);
}

#[test]
fn keys_of_one_side_are_marked_nil() {
    let a = read(r#"{"a":1,"b":{"deep":true},"c":3}"#);
    let b = read(r#"{"c":3,"d":[4]}"#);
    let m = match_json(&a, &b);
    assert_eq!(m.left_only_keys, KeyNode::Node(vec![key("a", KeyNode::Nil), key("b", KeyNode::Nil)]));
    assert_eq!(m.right_only_keys, KeyNode::Node(vec![key("d", KeyNode::Nil)]));
    assert_eq!(m.keys_in_both, KeyNode::Nil);
    assert_eq!(m.date_differ, None);
}

#[test]
fn values_of_different_kinds_under_one_key_are_a_leaf() {
    let a = read(r#"{"k":5}"#);
    let b = read(r#"{"k":{"x":5}}"#);
    let m = match_json(&a, &b);
    assert_eq!(m.left_only_keys, KeyNode::Nil);
    assert_eq!(m.right_only_keys, KeyNode::Nil);
    assert_eq!(
        m.keys_in_both,
        KeyNode::Node(vec![key("k", KeyNode::Value(num(5), Json::Object(vec![member("x", num(5))])))])
    );
}

#[test]
fn arrays_are_compared_as_a_whole() {
    let a = read(r#"{"k":[1,{"x":1}],"same":[1,2]}"#);
    let b = read(r#"{"k":[1,{"x":2}],"same":[1,2]}"#);
    let m = match_json(&a, &b);
    assert_eq!(
        m.keys_in_both,
        KeyNode::Node(vec![key(
            "k",
            KeyNode::Value(
                Json::Array(vec![num(1), Json::Object(vec![member("x", num(1))])]),
                Json::Array(vec![num(1), Json::Object(vec![member("x", num(2))])]),
            ),
        )])
    );
    assert!(m.left_only_keys.is_nil() && m.right_only_keys.is_nil());
}

#[test]
fn values_that_are_not_objects_are_compared_at_the_root() {
    assert_eq!(match_json(&num(1), &num(1)), nothing());
    assert_eq!(
        match_json(&num(1), &text("1")),
        Mismatch::new(KeyNode::Nil, KeyNode::Nil, KeyNode::Value(num(1), text("1")), None)
    );
    assert_eq!(
        match_json(&Json::Object(vec![]), &Json::Array(vec![])),
        Mismatch::new(
            KeyNode::Nil,
            KeyNode::Nil,
            KeyNode::Value(Json::Object(vec![]), Json::Array(vec![])),
            None
        )
    );
}

#[test]
fn trees_are_equal_in_any_order() {
    let a = KeyNode::Node(vec![key("x", KeyNode::Nil), key("y", KeyNode::Value(num(1), num(2)))]);
    let b = KeyNode::Node(vec![key("y", KeyNode::Value(num(1), num(2))), key("x", KeyNode::Nil)]);
    assert!(same_node(&a, &b));
    assert_eq!(a, b);
    let c = KeyNode::Node(vec![key("y", KeyNode::Value(num(2), num(1))), key("x", KeyNode::Nil)]);
    assert!(a != c);
    assert!(KeyNode::Nil != KeyNode::Node(vec![]));
    assert!(a != KeyNode::Node(vec![key("x", KeyNode::Nil)]));
}

#[test]
fn mismatch_new_keeps_its_arguments() {
    let m = Mismatch::new(
        KeyNode::Node(vec![key("l", KeyNode::Nil)]),
        KeyNode::Node(vec![key("r", KeyNode::Nil)]),
        KeyNode::Value(num(1), num(2)),
        Some(false),
    );
    assert_eq!(m.left_only_keys, KeyNode::Node(vec![key("l", KeyNode::Nil)]));
    assert_eq!(m.right_only_keys, KeyNode::Node(vec![key("r", KeyNode::Nil)]));
    assert_eq!(m.keys_in_both, KeyNode::Value(num(1), num(2)));
    assert_eq!(m.date_differ, Some(false));
    assert!(!m.is_empty());
}

#[test]
fn mismatches_differ_by_any_field() {
    let base = nothing();
    assert!(same_mismatch(&base, &Mismatch::none()));
    assert!(base.is_empty());
    assert!(base != Mismatch::new(KeyNode::Nil, KeyNode::Nil, KeyNode::Nil, Some(true)));
    assert!(
        Mismatch::new(KeyNode::Nil, KeyNode::Nil, KeyNode::Nil, Some(true))
            != Mismatch::new(KeyNode::Nil, KeyNode::Nil, KeyNode::Nil, Some(false))
    );
    assert!(base != Mismatch::new(KeyNode::Node(vec![key("a", KeyNode::Nil)]), KeyNode::Nil, KeyNode::Nil, None));
    assert!(base != Mismatch::new(KeyNode::Nil, KeyNode::Node(vec![key("a", KeyNode::Nil)]), KeyNode::Nil, None));
    assert!(base != Mismatch::new(KeyNode::Nil, KeyNode::Nil, KeyNode::Value(num(1), num(2)), None));
    assert!(!Mismatch::new(KeyNode::Nil, KeyNode::Nil, KeyNode::Nil, Some(true)).is_empty());
}
