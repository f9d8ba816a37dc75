use datakit::json_value::JsonValue;
use datakit::mainnet::secure_key_generator::EncryptionKey;
use datakit::beacon::deneb::signed_beacon_block::ssz_random::case_1::json_parser::{display_json, parse_json, pretty_print_json, try_parse_json};
use datakit::beacon::deneb::signed_beacon_block::ssz_random::case_1::json_parser::descent::{pretty_print_json as pretty_in_order, JsonParser};
use datakit::mainnet::json_merger::{merge_json, merge_json_files as merge_objects_strict, merge_json_with_strategy};
use datakit::beacon::json_merger::deep::{deep_merge, merge_multiple};
use datakit::beacon::json_merger::merge_json_files as merge_with_notes;
use datakit::beacon::json_merger::missing_skipped::merge_json_files as merge_skipping_missing;
use datakit::json_merger::merge_json_files as concat_files;
use datakit::beacon::deneb::signed_beacon_block::json_merger::merge_json_files as dedup_by_id;
use datakit::beacon::deneb::signed_beacon_block::json_merger::by_object::merge_json_files as merge_in_depth;
use datakit::beacon::deneb::signed_beacon_block::ssz_random::json_merger::merge_json_files as merge_keep_both;
use datakit::infura_batch::json_merger::merge_json_files as merge_all_required;
use datakit::beacon::json_validator::{count_keys, calculate_depth, get_root_type, JsonValidator};
use datakit::beacon::deneb::signed_beacon_block::ssz_random::json_validator::JsonValidator as FieldValidator;

fn num(n: &str) -> JsonValue {
    JsonValue::Number(n.to_string())
}

fn s(t: &str) -> JsonValue {
    JsonValue::String(t.to_string())
}

fn obj(entries: Vec<(&str, JsonValue)>) -> JsonValue {
    JsonValue::Object(entries.into_iter().map(|(k, v)| (k.to_string(), v)).collect())
}

fn ok(t: &str) -> Result<String, String> {
    Ok(t.to_string())
}

fn get<'a>(v: &'a JsonValue, key: &str) -> Option<&'a JsonValue> {
    match v {
        JsonValue::Object(es) => es.iter().find(|(k, _)| k == key).map(|(_, v)| v),
        _ => None,
    }
}

#[test]
fn json_parser_test_parse_null() {
    assert_eq!(parse_json("null").unwrap(), JsonValue::Null);
}

#[test]
fn json_parser_test_parse_bool() {
    assert_eq!(parse_json("true").unwrap(), JsonValue::Bool(true));
    assert_eq!(parse_json("false").unwrap(), JsonValue::Bool(false));
}

#[test]
fn json_parser_test_parse_number() {
    assert_eq!(parse_json("42").unwrap(), num("42"));
    assert_eq!(parse_json("-3.14").unwrap(), num("-3.14"));
    assert_eq!(parse_json("4x").err(), Some("Invalid number format".to_string()));
}

#[test]
fn json_parser_test_parse_string() {
    assert_eq!(parse_json("\"hello\"").unwrap(), s("hello"));
    assert_eq!(try_parse_json("\""), None);
}

#[test]
fn json_parser_test_parse_array() {
    let result = parse_json("[1, 2, 3]").unwrap();
    assert_eq!(result, JsonValue::Array(vec![num("1"), num("2"), num("3")]));
    assert_eq!(parse_json("[]").unwrap(), JsonValue::Array(vec![]));
    assert_eq!(parse_json("[[1,2],{\"a\":[3]}]").unwrap(), JsonValue::Array(vec![
        JsonValue::Array(vec![num("1"), num("2")]),
        obj(vec![("a", JsonValue::Array(vec![num("3")]))]),
    ]));
    assert_eq!(parse_json("[1,,2]").err(), Some("Empty input".to_string()));
}

#[test]
fn json_parser_test_parse_object() {
    let result = parse_json("{\"key\": \"value\"}").unwrap();
    assert_eq!(result, obj(vec![("key", s("value"))]));
    assert_eq!(parse_json("{1: 2}").err(), Some("Object keys must be strings".to_string()));
    assert_eq!(parse_json("x").err(), Some("Unexpected character: x".to_string()));
    assert_eq!(parse_json("   ").err(), Some("Empty input".to_string()));
    assert_eq!(parse_json("nul").err(), Some("Invalid null value".to_string()));
}

#[test]
fn json_parser_test_pretty_print() {
    let json = parse_json("{\"name\": \"John\", \"age\": 30}").unwrap();
    let printed = pretty_print_json(&json, 2);
    assert!(printed.contains("\"name\": \"John\""));
    assert!(printed.contains("\"age\": 30"));
    assert_eq!(printed, "{\n  \"age\": 30,\n  \"name\": \"John\"\n}");
    let nested = parse_json("[1, [2], {}]").unwrap();
    assert_eq!(pretty_print_json(&nested, 2), "[\n  1,\n  [\n    2\n  ],\n  {}\n]");
}

#[test]
fn descent_parser_reads_documents() {
    let mut parser = JsonParser::new("{\"name\": \"John\", \"age\": 30}");
    assert_eq!(parser.parse(), Ok(obj(vec![("name", s("John")), ("age", num("30"))])));
    let mut parser = JsonParser::new("[1, 2, 3]");
    assert_eq!(parser.parse(), Ok(JsonValue::Array(vec![num("1"), num("2"), num("3")])));
    let mut parser = JsonParser::new("\"a\\nb\"");
    assert_eq!(parser.parse(), Ok(s("a\nb")));
    let mut parser = JsonParser::new("null x");
    assert!(parser.parse().is_err());
}

#[test]
fn descent_pretty_print_in_order() {
    let v = obj(vec![("name", s("Alice")), ("scores", JsonValue::Array(vec![num("95"), num("87")]))]);
    let printed = pretty_in_order(&v, 0);
    assert_eq!(printed, "{\n  \"name\": \"Alice\",\n  \"scores\": [\n    95,\n    87\n  ]\n}");
}

#[test]
fn json_merger_test_basic_merge() {
    let base = r#"{"a": 1, "b": {"c": 2}}"#;
    let other = r#"{"b": {"d": 3}, "e": 4}"#;
    let merged = merge_json_with_strategy(base, other, false).unwrap();
    assert_eq!(merged, obj(vec![("a", num("1")), ("b", obj(vec![("c", num("2")), ("d", num("3"))])), ("e", num("4"))]));
    assert!(merge_json_with_strategy("{", other, false).is_err());
}

#[test]
fn test_array_merge() {
    let mut base = obj(vec![("items", JsonValue::Array(vec![s("apple"), s("banana")]))]);
    let other = obj(vec![("items", JsonValue::Array(vec![s("banana"), s("cherry")]))]);
    merge_json(&mut base, &other, false);
    assert_eq!(get(&base, "items"), Some(&JsonValue::Array(vec![s("apple"), s("banana"), s("cherry")])));
    merge_json(&mut base, &other, true);
    assert_eq!(get(&base, "items"), Some(&JsonValue::Array(vec![s("banana"), s("cherry")])));
}

#[test]
fn json_merger_test_merge_json_files() {
    let files = vec![ok(r#"{"name": "Alice", "age": 30}"#), ok(r#"{"city": "Berlin", "age": 35}"#)];
    let merged = merge_objects_strict(&files).unwrap();
    assert_eq!(get(&merged, "name"), Some(&s("Alice")));
    assert_eq!(get(&merged, "age"), Some(&num("35")));
    assert_eq!(get(&merged, "city"), Some(&s("Berlin")));
    let bad = merge_objects_strict(&vec![ok("1")]);
    assert_eq!(bad.err(), Some("Each JSON file must contain a JSON object".to_string()));
    let unreadable = merge_objects_strict(&vec![Err("no such file".to_string())]);
    assert_eq!(unreadable.err(), Some("no such file".to_string()));
    assert!(merge_objects_strict(&vec![ok("{not json")]).is_err());
}

#[test]
fn test_overwrite_primitive() {
    let mut target = obj(vec![("a", num("1"))]);
    deep_merge(&mut target, &obj(vec![("a", num("2"))]));
    assert_eq!(target, obj(vec![("a", num("2"))]));
    let all = merge_multiple(vec![obj(vec![("x", num("1"))]), obj(vec![("y", num("2"))])]);
    assert_eq!(all, obj(vec![("x", num("1")), ("y", num("2"))]));
}

#[test]
fn test_merge_conflict() {
    let paths = vec!["a.json".to_string(), "b.json".to_string()];
    let files = vec![ok(r#"{"x": "first"}"#), ok(r#"{"x": "second"}"#)];
    let (merged, notes) = merge_with_notes(&paths, &files).unwrap();
    assert_eq!(get(&merged, "x"), Some(&s("second")));
    assert_eq!(notes, vec!["Conflict: Key 'x' already exists from file a.json, overwritten by file b.json".to_string()]);
    let none = merge_with_notes(&Vec::new(), &Vec::new());
    assert_eq!(none.err(), Some("No input files provided".to_string()));
    let unreadable = merge_with_notes(&vec!["c.json".to_string()], &vec![Err("gone".to_string())]);
    assert_eq!(unreadable.err(), Some("Failed to read c.json: gone".to_string()));
    let not_object = merge_with_notes(&vec!["d.json".to_string()], &vec![ok("3")]);
    assert_eq!(not_object.err(), Some("File d.json does not contain a JSON object".to_string()));
    let invalid = merge_with_notes(&vec!["e.json".to_string()], &vec![ok("{")]);
    assert!(invalid.err().unwrap().starts_with("Invalid JSON in e.json: "));
}

#[test]
fn merging_skips_missing_files() {
    let files = vec![Some(ok(r#"{"name": "Alice"}"#)), None, Some(ok("7")), Some(ok(r#"{"active": true}"#))];
    let merged = merge_skipping_missing(&files).unwrap();
    assert_eq!(get(&merged, "name"), Some(&s("Alice")));
    assert_eq!(get(&merged, "active"), Some(&JsonValue::Bool(true)));
    assert!(merge_skipping_missing(&vec![Some(ok("]"))]).is_err());
}

#[test]
fn concatenating_files() {
    let files = vec![ok("[1, 2]"), ok(r#""x""#)];
    assert_eq!(concat_files(&files).unwrap(), JsonValue::Array(vec![num("1"), num("2"), s("x")]));
}

#[test]
fn dedup_records_by_id() {
    let f1 = ok(r#"[{"id": "1", "name": "Alice"}, {"id": "2", "name": "Bob"}]"#);
    let f2 = ok(r#"[{"id": "2", "name": "Robert"}, {"id": "3", "name": "Charlie"}, 9]"#);
    let merged = dedup_by_id(&vec![f1, f2]).unwrap();
    assert_eq!(merged.len(), 4);
    assert_eq!(get(&merged[1], "name"), Some(&s("Bob")));
    assert_eq!(merged[3], num("9"));
    assert!(dedup_by_id(&vec![ok(r#"{"id": "1"}"#)]).is_err());
}

#[test]
fn merging_objects_in_depth() {
    let files = vec![ok(r#"{"a": {"x": 1}}"#), ok(r#"{"a": {"y": 2}}"#)];
    let merged = merge_in_depth(&files).unwrap();
    assert_eq!(merged, obj(vec![("a", obj(vec![("x", num("1")), ("y", num("2"))]))]));
}

#[test]
fn test_merge_json() {
    let files = vec![ok(r#"{"a": 1, "b": "test"}"#), ok(r#"{"b": "test", "c": true, "a": 2}"#)];
    let (merged, conflicts) = merge_keep_both(&files).unwrap();
    assert_eq!(get(&merged, "b"), Some(&s("test")));
    assert_eq!(get(&merged, "a"), Some(&JsonValue::Array(vec![num("1"), num("2")])));
    assert_eq!(conflicts.len(), 1);
    assert_eq!(conflicts[0].key, "a");
}

#[test]
fn test_overwrite_keys() {
    let paths = vec!["1.json".to_string(), "2.json".to_string()];
    let files = vec![Some(ok(r#"{"key": "first"}"#)), Some(ok(r#"{"key": "second"}"#))];
    let (merged, warnings) = merge_all_required(&paths, &files).unwrap();
    assert_eq!(get(&merged, "key"), Some(&s("second")));
    assert_eq!(warnings, vec!["Warning: Key 'key' already exists, overwriting.".to_string()]);
    let missing = merge_all_required(&vec!["gone.json".to_string()], &vec![None]);
    assert_eq!(missing.err(), Some("File not found: gone.json".to_string()));
}

#[test]
fn test_valid_json() {
    let valid_json = r#"{"name": "test", "value": 42}"#;
    assert!(JsonValidator::is_valid(valid_json));
    assert!(JsonValidator::validate_string(valid_json).is_ok());
}

#[test]
fn test_invalid_json() {
    let invalid_json = r#"{"name": "test", "value": 42"#;
    assert!(!JsonValidator::is_valid(invalid_json));
    assert!(JsonValidator::validate_string(invalid_json).is_err());
}

#[test]
fn test_validation_details() {
    let json = r#"{"user": {"name": "john", "age": 30}, "active": true}"#;
    let details = JsonValidator::get_validation_details(json).unwrap();
    assert!(details.is_valid);
    assert_eq!(details.data_type, "object");
    assert_eq!(details.total_keys, 3);
    assert_eq!(details.depth, 2);
}

#[test]
fn validation_counts_of_values() {
    let v = obj(vec![("name", s("test")), ("list", JsonValue::Array(vec![obj(vec![("k", num("1"))])])), ("nested", obj(vec![]))]);
    assert_eq!(count_keys(&v), 3);
    assert_eq!(calculate_depth(&v), 3);
    assert_eq!(calculate_depth(&num("1")), 0);
    assert_eq!(get_root_type(&v), "object");
    let checked = JsonValidator::checked_validation_details("[]").unwrap().unwrap();
    assert_eq!((checked.total_keys, checked.depth, checked.data_type.as_str()), (0, 1, "array"));
    assert!(JsonValidator::checked_validation_details("[").unwrap().is_err());
}

#[test]
fn json_validator_test_validation() {
    let mut validator = FieldValidator::new();
    validator.add_required_field("name");
    validator.add_allowed_type("age", vec!["number"]);
    validator.add_allowed_type("tags", vec!["array"]);
    assert!(validator.validate(r#"{"name": "John", "age": 30, "tags": ["rust"]}"#).is_ok());
    assert_eq!(validator.validate(r#"{"age": 30}"#).err(), Some("Missing required field: name".to_string()));
    assert_eq!(
        validator.validate(r#"{"name": "John", "age": "thirty"}"#).err(),
        Some("Field 'age' has invalid type 'string'. Allowed: [\"number\"]".to_string())
    );
    assert!(validator.validate("{").err().unwrap().starts_with("Invalid JSON: "));
}

#[test]
fn test_merge_basic() {
    let paths = vec!["file1.json".to_string(), "file2.json".to_string()];
    let files = vec![ok(r#"{"a": 1, "b": 2}"#), ok(r#"{"c": 3, "d": 4}"#)];
    let (merged, notes) = merge_with_notes(&paths, &files).unwrap();
    match &merged {
        JsonValue::Object(es) => assert_eq!(es.len(), 4),
        _ => panic!("Expected an object"),
    }
    assert_eq!(get(&merged, "a"), Some(&num("1")));
    assert_eq!(get(&merged, "d"), Some(&num("4")));
    assert!(notes.is_empty());
}

#[test]
fn one_line_display() {
    let v = obj(vec![("name", s("Alice")), ("scores", JsonValue::Array(vec![num("95"), num("87")])), ("none", JsonValue::Null)]);
    assert_eq!(display_json(&v), r#"{"name": "Alice", "scores": [95, 87], "none": null}"#);
    assert_eq!(display_json(&JsonValue::Array(vec![])), "[]");
    assert_eq!(display_json(&obj(vec![])), "{}");
    assert_eq!(display_json(&JsonValue::Bool(false)), "false");
}

#[test]
fn pretty_text_does_not_depend_on_entry_order() {
    let a = obj(vec![("b", num("2")), ("a", s("x")), ("c", JsonValue::Array(vec![]))]);
    let b = obj(vec![("c", JsonValue::Array(vec![])), ("a", s("x")), ("b", num("2"))]);
    assert_eq!(pretty_print_json(&a, 2), pretty_print_json(&b, 2));
    assert_eq!(pretty_print_json(&a, 2), "{\n  \"a\": \"x\",\n  \"b\": 2,\n  \"c\": []\n}");
    assert_eq!(pretty_print_json(&obj(vec![]), 2), "{}");
}

#[test]
fn key_text_is_lowercased() {
    let upper = "AB".repeat(32);
    let k = EncryptionKey::from_hex(&upper).unwrap();
    assert_eq!(k.to_hex(), "ab".repeat(32));
    assert_eq!(EncryptionKey::from_hex(&k.to_hex()).unwrap(), k);
}
