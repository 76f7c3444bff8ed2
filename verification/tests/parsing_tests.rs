//! Tests for the defensive parsing utilities and the untyped JSON
//! extraction pipeline.

use llm_pipeline::jsonval::JsonValue;
use llm_pipeline::output_parser::jsonparse::parse_json_value;
use llm_pipeline::parsing::{
    extract_json_block, extract_json_candidate, extract_thinking, parse_value_defensively,
    parse_value_lossy,
};

#[test]
fn test_extract_thinking_present() {
    let text = "Before <think>my reasoning here</think> after";
    let (thinking, cleaned) = extract_thinking(text);
    assert_eq!(thinking.as_deref(), Some("my reasoning here"));
    assert_eq!(cleaned, "Before  after");
}

#[test]
fn test_extract_thinking_absent() {
    let text = "no thinking tags here";
    let (thinking, cleaned) = extract_thinking(text);
    assert!(thinking.is_none());
    assert_eq!(cleaned, "no thinking tags here");
}

#[test]
fn test_extract_thinking_empty() {
    let text = "<think>  </think>actual content";
    let (thinking, cleaned) = extract_thinking(text);
    assert!(thinking.is_none());
    assert_eq!(cleaned, "actual content");
}

#[test]
fn test_extract_json_block() {
    let text = "text\n```json\n{\"a\":1}\n```\nmore";
    assert_eq!(extract_json_block(text).as_deref(), Some("{\"a\":1}"));
}

#[test]
fn test_extract_json_block_none() {
    assert!(extract_json_block("no code block").is_none());
}

#[test]
fn test_extract_json_candidate_from_block() {
    let text = "```json\n{\"x\":1}\n```";
    assert_eq!(extract_json_candidate(text).as_deref(), Some("{\"x\":1}"));
}

#[test]
fn test_extract_json_candidate_embedded() {
    let text = "Here is the result: {\"name\": \"test\"} done.";
    let candidate = extract_json_candidate(text);
    assert!(candidate.is_some());
    let val: serde_json::Value = serde_json::from_str(&candidate.unwrap()).unwrap();
    assert_eq!(val["name"], "test");
}

#[test]
fn test_parse_value_lossy_json() {
    let val = parse_value_lossy(r#"{"key": "value"}"#);
    assert_eq!(val.get("key"), Some(&JsonValue::Str("value".to_string())));
}

#[test]
fn test_parse_value_lossy_string() {
    let val = parse_value_lossy("just plain text");
    assert_eq!(val, JsonValue::Str("just plain text".to_string()));
}

#[test]
fn test_parse_value_defensively_ok() {
    let val = parse_value_defensively(r#"{"a": 1}"#).unwrap();
    assert_eq!(val.get("a"), Some(&JsonValue::Num("1".to_string())));
}

#[test]
fn test_parse_value_defensively_err() {
    let result = parse_value_defensively("not json");
    assert!(result.is_err());
}

#[test]
fn parse_json_value_works() {
    let input = r#"{"a": 1, "b": "two"}"#;
    let val = parse_json_value(input).unwrap();
    assert_eq!(val.get("a"), Some(&JsonValue::Num("1".to_string())));
    assert_eq!(val.get("b"), Some(&JsonValue::Str("two".to_string())));
}

#[test]
fn parse_json_value_uses_repair() {
    let val = parse_json_value("{'key': 'value',}").unwrap();
    assert_eq!(val.get("key"), Some(&JsonValue::Str("value".to_string())));
}

#[test]
fn parse_json_value_reports_deserialization_failure() {
    let result = parse_json_value("no structure at all");
    assert!(result.is_err());
}
