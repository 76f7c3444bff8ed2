//! Tests for JSON repair and the streaming completer.

use llm_pipeline::output_parser::repair::try_repair_json;
use llm_pipeline::output_parser::streaming::{auto_complete_json, StreamingJsonParser};
use llm_pipeline::jsonval::JsonValue;

#[test]
fn trailing_comma_object() {
    let input = r#"{"a": 1, "b": 2,}"#;
    let result = try_repair_json(input).unwrap();
    assert_eq!(result, r#"{"a": 1, "b": 2}"#);
}

#[test]
fn trailing_comma_array() {
    let input = "[1, 2, 3,]";
    let result = try_repair_json(input).unwrap();
    assert_eq!(result, "[1, 2, 3]");
}

#[test]
fn single_quotes() {
    let input = "{'key': 'value'}";
    let result = try_repair_json(input).unwrap();
    let parsed: serde_json::Value = serde_json::from_str(&result).unwrap();
    assert_eq!(parsed["key"], "value");
}

#[test]
fn python_booleans() {
    let input = r#"{"active": True}"#;
    let result = try_repair_json(input).unwrap();
    let parsed: serde_json::Value = serde_json::from_str(&result).unwrap();
    assert_eq!(parsed["active"], true);
}

#[test]
fn python_none() {
    let input = r#"{"data": None}"#;
    let result = try_repair_json(input).unwrap();
    let parsed: serde_json::Value = serde_json::from_str(&result).unwrap();
    assert!(parsed["data"].is_null());
}

#[test]
fn unquoted_keys() {
    let input = r#"{name: "Josh", age: 30}"#;
    let result = try_repair_json(input).unwrap();
    let parsed: serde_json::Value = serde_json::from_str(&result).unwrap();
    assert_eq!(parsed["name"], "Josh");
    assert_eq!(parsed["age"], 30);
}

#[test]
fn inline_comment() {
    let input = r#"{"a": 1} // comment"#;
    let result = try_repair_json(input).unwrap();
    let parsed: serde_json::Value = serde_json::from_str(&result).unwrap();
    assert_eq!(parsed["a"], 1);
}

#[test]
fn missing_close_brace() {
    let input = r#"{"a": 1"#;
    let result = try_repair_json(input).unwrap();
    let parsed: serde_json::Value = serde_json::from_str(&result).unwrap();
    assert_eq!(parsed["a"], 1);
}

#[test]
fn missing_close_bracket() {
    let input = "[1, 2, 3";
    let result = try_repair_json(input).unwrap();
    let parsed: serde_json::Value = serde_json::from_str(&result).unwrap();
    assert_eq!(parsed.as_array().unwrap().len(), 3);
}

#[test]
fn mixed_errors() {
    let input = "{'a': True, 'b': None,}";
    let result = try_repair_json(input).unwrap();
    let parsed: serde_json::Value = serde_json::from_str(&result).unwrap();
    assert_eq!(parsed["a"], true);
    assert!(parsed["b"].is_null());
}

#[test]
fn no_repair_needed() {
    let input = r#"{"a": 1}"#;
    assert!(try_repair_json(input).is_none());
}

#[test]
fn unrepairable() {
    let input = "not json at all";
    assert!(try_repair_json(input).is_none());
}

#[test]
fn apostrophe_safety() {
    let input = r#"{"text": "don't stop"}"#;
    assert!(try_repair_json(input).is_none());
}

#[test]
fn nested_trailing_commas() {
    let input = r#"{"a": [1, 2,], "b": 3,}"#;
    let result = try_repair_json(input).unwrap();
    let parsed: serde_json::Value = serde_json::from_str(&result).unwrap();
    assert_eq!(parsed["a"].as_array().unwrap().len(), 2);
    assert_eq!(parsed["b"], 3);
}

#[test]
fn block_comment() {
    let input = r#"{"a": /* comment */ 1}"#;
    let result = try_repair_json(input).unwrap();
    let parsed: serde_json::Value = serde_json::from_str(&result).unwrap();
    assert_eq!(parsed["a"], 1);
}

#[test]
fn single_quoted_array() {
    let input = "['tag1', 'tag2', 'tag3']";
    let result = try_repair_json(input).unwrap();
    let parsed: Vec<String> = serde_json::from_str(&result).unwrap();
    assert_eq!(parsed, vec!["tag1", "tag2", "tag3"]);
}

#[test]
fn repaired_output_parses_without_further_repair() {
    let inputs = ["{'k': 1,}", "[1, 2,", r#"{"a": True} // x"#];
    for input in inputs {
        if let Some(repaired) = try_repair_json(input) {
            assert!(serde_json::from_str::<serde_json::Value>(&repaired).is_ok());
            assert!(try_repair_json(&repaired).is_none());
        }
    }
}

#[test]
fn test_auto_complete_closes_string() {
    let result = auto_complete_json(r#"{"name": "Alice"#).unwrap();
    let v: serde_json::Value = serde_json::from_str(&result).unwrap();
    assert_eq!(v["name"], "Alice");
}

#[test]
fn test_auto_complete_closes_brace() {
    let result = auto_complete_json(r#"{"key": "value""#).unwrap();
    let v: serde_json::Value = serde_json::from_str(&result).unwrap();
    assert_eq!(v["key"], "value");
}

#[test]
fn test_auto_complete_nested() {
    let result = auto_complete_json(r#"{"items": [{"name": "a"}, {"name": "b""#).unwrap();
    let v: serde_json::Value = serde_json::from_str(&result).unwrap();
    assert!(v["items"].is_array());
}

#[test]
fn test_auto_complete_with_null_fill() {
    let result = auto_complete_json(r#"{"name": "Alice", "age": "#).unwrap();
    let v: serde_json::Value = serde_json::from_str(&result).unwrap();
    assert_eq!(v["name"], "Alice");
}

#[test]
fn test_auto_complete_already_valid() {
    let input = r#"{"complete": true}"#;
    let result = auto_complete_json(input).unwrap();
    assert_eq!(result, input);
}

#[test]
fn test_auto_complete_not_json() {
    assert!(auto_complete_json("just plain text").is_none());
    assert!(auto_complete_json("").is_none());
}

#[test]
fn test_auto_complete_with_think_tags() {
    let input = r#"<think>hmm</think>{"key": "val"#;
    let result = auto_complete_json(input).unwrap();
    let v: serde_json::Value = serde_json::from_str(&result).unwrap();
    assert_eq!(v["key"], "val");
}

#[test]
fn test_streaming_parser_progressive() {
    let mut parser = StreamingJsonParser::new();
    parser.push(r#"{"name""#);
    parser.push(r#": "Alice", "age": 30}"#);
    let val = parser.current_value().unwrap();
    assert_eq!(val.get("name"), Some(&JsonValue::Str("Alice".to_string())));
    assert_eq!(val.get("age"), Some(&JsonValue::Num("30".to_string())));
}

#[test]
fn test_streaming_parser_cache_no_reparse() {
    let mut parser = StreamingJsonParser::new();
    parser.push(r#"{"complete": true}"#);
    let val1 = parser.current_value().map(|v| v.deep_clone());
    let val2 = parser.current_value().map(|v| v.deep_clone());
    assert_eq!(val1, val2);
}

#[test]
fn test_json_parser_recovers_truncated_object() {
    let result = auto_complete_json(r#"{"title": "Matrix", "year": 1999, "rating"#).unwrap();
    let v: serde_json::Value = serde_json::from_str(&result).unwrap();
    assert_eq!(v["title"], "Matrix");
    assert_eq!(v["year"], 1999);
}

#[test]
fn test_json_parser_truncated_in_string() {
    let result = auto_complete_json(r#"{"msg": "hello wor"#).unwrap();
    let v: serde_json::Value = serde_json::from_str(&result).unwrap();
    assert!(v["msg"].as_str().unwrap().starts_with("hello wor"));
}

#[test]
fn test_auto_complete_trailing_comma() {
    let result = auto_complete_json(r#"{"a": 1, "b": 2,"#).unwrap();
    let v: serde_json::Value = serde_json::from_str(&result).unwrap();
    assert_eq!(v["a"], 1);
    assert_eq!(v["b"], 2);
}

#[test]
fn completed_output_always_parses() {
    let inputs = [r#"{"a": [1, {"b": "#, r#"["x", "y"#, r#"{"k"#];
    for input in inputs {
        if let Some(completed) = auto_complete_json(input) {
            assert!(serde_json::from_str::<serde_json::Value>(&completed).is_ok());
        }
    }
}
