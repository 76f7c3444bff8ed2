//! Tests for string-list extraction, in both cleaned and raw variants.

use llm_pipeline::output_parser::listparse::{
    clean_tags, parse_string_list, parse_string_list_raw,
};
use llm_pipeline::output_parser::strip_think_tags;

#[test]
fn parse_json_array() {
    let input = r#"["portrait", "fantasy", "dark lighting"]"#;
    let tags = parse_string_list(input).unwrap();
    assert_eq!(tags, vec!["portrait", "fantasy", "dark lighting"]);
}

#[test]
fn parse_with_think_blocks() {
    let input = "<think>\nLet me analyze this image. I see a portrait with dark lighting...\n</think>\n\n[\"portrait\", \"dark lighting\", \"woman\"]";
    let tags = parse_string_list(input).unwrap();
    assert_eq!(tags, vec!["portrait", "dark lighting", "woman"]);
}

#[test]
fn parse_with_incomplete_think_block() {
    let input = "<think>\nStill thinking...\n[\"portrait\", \"fantasy\"]";
    let result = parse_string_list(input);
    assert!(result.is_err());
}

#[test]
fn list_strip_think_tags_complete() {
    let input = "<think>reasoning</think>result";
    assert_eq!(strip_think_tags(input), "result");
}

#[test]
fn list_strip_think_tags_incomplete() {
    let input = "<think>reasoning without close";
    assert_eq!(strip_think_tags(input), "");
}

#[test]
fn list_strip_think_tags_multiple() {
    let input = "<think>first</think>middle<think>second</think>end";
    assert_eq!(strip_think_tags(input), "middleend");
}

#[test]
fn parse_object_with_tags_key() {
    let input = r#"{"tags": ["portrait", "dark", "moody"]}"#;
    let tags = parse_string_list(input).unwrap();
    assert_eq!(tags, vec!["portrait", "dark", "moody"]);
}

#[test]
fn parse_think_then_object() {
    let input = r#"<think>Looking at this...</think>{"tags": ["cat", "cute", "indoor"]}"#;
    let tags = parse_string_list(input).unwrap();
    assert_eq!(tags, vec!["cat", "cute", "indoor"]);
}

#[test]
fn parse_markdown_code_block() {
    let input = "Here are the tags:\n\n```json\n[\"portrait\", \"fantasy\", \"oil painting\"]\n```";
    let tags = parse_string_list(input).unwrap();
    assert_eq!(tags, vec!["portrait", "fantasy", "oil painting"]);
}

#[test]
fn parse_think_then_code_block() {
    let input = "<think>\nAnalyzing...\n</think>\n\n```json\n[\"landscape\", \"sunset\"]\n```";
    let tags = parse_string_list(input).unwrap();
    assert_eq!(tags, vec!["landscape", "sunset"]);
}

#[test]
fn parse_code_block_with_object() {
    let input = "```json\n{\"tags\": [\"a\", \"b\"]}\n```";
    let tags = parse_string_list(input).unwrap();
    assert_eq!(tags, vec!["a", "b"]);
}

#[test]
fn parse_with_surrounding_text() {
    let input = r#"Here are the tags: ["cat", "cute", "indoor"]"#;
    let tags = parse_string_list(input).unwrap();
    assert_eq!(tags, vec!["cat", "cute", "indoor"]);
}

#[test]
fn parse_mixed_text_and_json() {
    let input = "I found these:\n[\"a\", \"b\"]\nHope that helps!";
    let tags = parse_string_list(input).unwrap();
    assert_eq!(tags, vec!["a", "b"]);
}

#[test]
fn parse_numbered_list() {
    let input = "1. portrait\n2. fantasy\n3. dark lighting";
    let tags = parse_string_list(input).unwrap();
    assert_eq!(tags, vec!["portrait", "fantasy", "dark lighting"]);
}

#[test]
fn parse_bulleted_list() {
    let input = "- portrait\n- fantasy\n- dark lighting";
    let tags = parse_string_list(input).unwrap();
    assert_eq!(tags, vec!["portrait", "fantasy", "dark lighting"]);
}

#[test]
fn parse_star_bulleted_list() {
    let input = "* cat\n* cute\n* fluffy";
    let tags = parse_string_list(input).unwrap();
    assert_eq!(tags, vec!["cat", "cute", "fluffy"]);
}

#[test]
fn parse_comma_separated() {
    let input = "portrait, fantasy, dark lighting";
    let tags = parse_string_list(input).unwrap();
    assert_eq!(tags, vec!["portrait", "fantasy", "dark lighting"]);
}

#[test]
fn parse_empty_fails() {
    assert!(parse_string_list("").is_err());
    assert!(parse_string_list("   ").is_err());
}

#[test]
fn parse_cleans_whitespace_and_case() {
    let input = r#"["  Portrait  ", " FANTASY ", "Dark Lighting"]"#;
    let tags = parse_string_list(input).unwrap();
    assert_eq!(tags, vec!["portrait", "fantasy", "dark lighting"]);
}

#[test]
fn parse_deduplicates() {
    let input = r#"["cat", "Cat", "CAT", "dog"]"#;
    let tags = parse_string_list(input).unwrap();
    assert_eq!(tags, vec!["cat", "dog"]);
}

#[test]
fn parse_filters_long_tags() {
    let input = format!(r#"["good", "{}"]"#, "x".repeat(60));
    let tags = parse_string_list(&input).unwrap();
    assert_eq!(tags, vec!["good"]);
}

#[test]
fn clean_tags_filters_empty() {
    let tags = vec!["good".to_string(), "".to_string(), "  ".to_string()];
    let cleaned = clean_tags(&tags);
    assert_eq!(cleaned, vec!["good"]);
}

#[test]
fn json_object_with_items_key() {
    let input = r#"{"items": ["a", "b"]}"#;
    let tags = parse_string_list(input).unwrap();
    assert_eq!(tags, vec!["a", "b"]);
}

#[test]
fn json_object_with_results_key() {
    let input = r#"{"results": ["a", "b"]}"#;
    let tags = parse_string_list(input).unwrap();
    assert_eq!(tags, vec!["a", "b"]);
}

#[test]
fn json_object_with_list_key() {
    let input = r#"{"list": ["a", "b"]}"#;
    let tags = parse_string_list(input).unwrap();
    assert_eq!(tags, vec!["a", "b"]);
}

#[test]
fn repaired_json_list() {
    let input = "['tag1', 'tag2']";
    let tags = parse_string_list(input).unwrap();
    assert_eq!(tags, vec!["tag1", "tag2"]);
}

#[test]
fn raw_preserves_case() {
    let input = r#"["Alpha", "Beta"]"#;
    let tags = parse_string_list_raw(input).unwrap();
    assert_eq!(tags, vec!["Alpha", "Beta"]);
}

#[test]
fn raw_preserves_length() {
    let long_item = "x".repeat(60);
    let input = format!(r#"["short", "{}"]"#, long_item);
    let tags = parse_string_list_raw(&input).unwrap();
    assert_eq!(tags.len(), 2);
    assert_eq!(tags[1], long_item);
}

#[test]
fn raw_comma_separated() {
    let input = "Alpha, Beta, Gamma";
    let tags = parse_string_list_raw(input).unwrap();
    assert_eq!(tags, vec!["Alpha", "Beta", "Gamma"]);
}

#[test]
fn thinking_tag_variant() {
    let input = r#"<thinking>analyzing...</thinking>["a", "b"]"#;
    let tags = parse_string_list(input).unwrap();
    assert_eq!(tags, vec!["a", "b"]);
}
