//! Tests for the shared extraction steps: reasoning-tag stripping,
//! preprocessing, code blocks, and bracket matching.

use llm_pipeline::output_parser::extract::{
    extract_code_block, extract_code_block_for, find_bracketed, preprocess, strip_think_tags,
};

#[test]
fn extract_strip_think_tags_complete() {
    let input = "<think>reasoning</think>result";
    assert_eq!(strip_think_tags(input), "result");
}

#[test]
fn extract_strip_think_tags_incomplete() {
    let input = "<think>reasoning without close";
    assert_eq!(strip_think_tags(input), "");
}

#[test]
fn extract_strip_think_tags_multiple() {
    let input = "<think>first</think>middle<think>second</think>end";
    assert_eq!(strip_think_tags(input), "middleend");
}

#[test]
fn strip_thinking_tags_complete() {
    let input = "<thinking>reasoning</thinking>result";
    assert_eq!(strip_think_tags(input), "result");
}

#[test]
fn strip_thinking_tags_incomplete() {
    let input = "<thinking>reasoning without close";
    assert_eq!(strip_think_tags(input), "");
}

#[test]
fn strip_think_tags_no_tags() {
    let input = "just plain text";
    assert_eq!(strip_think_tags(input), "just plain text");
}

#[test]
fn strip_mixed_think_and_thinking() {
    let input = "<think>a</think>mid<thinking>b</thinking>end";
    assert_eq!(strip_think_tags(input), "midend");
}

#[test]
fn preprocess_strips_and_trims() {
    let input = "  <think>stuff</think>  hello world  ";
    assert_eq!(preprocess(input), "hello world");
}

#[test]
fn extract_json_code_block() {
    let input = "Here:\n```json\n{\"a\": 1}\n```";
    let (lang, content) = extract_code_block(input).unwrap();
    assert_eq!(lang.as_deref(), Some("json"));
    assert_eq!(content, "{\"a\": 1}");
}

#[test]
fn extract_bare_code_block() {
    let input = "Here:\n```\n{\"a\": 1}\n```";
    let (lang, content) = extract_code_block(input).unwrap();
    assert!(lang.is_none());
    assert_eq!(content, "{\"a\": 1}");
}

#[test]
fn extract_code_block_no_fence() {
    let input = "no code blocks here";
    assert!(extract_code_block(input).is_none());
}

#[test]
fn extract_code_block_for_json() {
    let input = "```json\n[1, 2, 3]\n```";
    assert_eq!(extract_code_block_for(input, "json").as_deref(), Some("[1, 2, 3]"));
}

#[test]
fn extract_code_block_for_wrong_lang() {
    let input = "```yaml\nname: test\n```";
    assert!(extract_code_block_for(input, "json").is_none());
}

#[test]
fn find_bracketed_json_object() {
    let input = r#"Result: {"a": [1, 2]}"#;
    assert_eq!(find_bracketed(input, '{', '}').as_deref(), Some(r#"{"a": [1, 2]}"#));
}

#[test]
fn find_bracketed_json_array() {
    let input = r#"Here: ["a", "b"] done"#;
    assert_eq!(find_bracketed(input, '[', ']').as_deref(), Some(r#"["a", "b"]"#));
}

#[test]
fn find_bracketed_nested() {
    let input = r#"{"outer": {"inner": [1]}}"#;
    assert_eq!(
        find_bracketed(input, '{', '}').as_deref(),
        Some(r#"{"outer": {"inner": [1]}}"#)
    );
}

#[test]
fn find_bracketed_prefers_later() {
    let input = r#"[1, 2] and then ["a", "b"]"#;
    let result = find_bracketed(input, '[', ']');
    assert_eq!(result.as_deref(), Some(r#"["a", "b"]"#));
}

#[test]
fn find_bracketed_no_match() {
    let input = "no brackets here";
    assert!(find_bracketed(input, '{', '}').is_none());
}

#[test]
fn find_bracketed_with_string_containing_brackets() {
    let input = r#"{"text": "hello [world]"}"#;
    assert_eq!(
        find_bracketed(input, '{', '}').as_deref(),
        Some(r#"{"text": "hello [world]"}"#)
    );
}

#[test]
fn preprocess_applied_twice_is_stable() {
    let inputs = ["  <think>x</think> answer ", "plain", "<thinking>a</thinking> b "];
    for input in inputs {
        let once = preprocess(input);
        let twice = preprocess(&once);
        assert_eq!(once, twice);
    }
}

#[test]
fn strip_think_tags_leaves_no_opening_tag() {
    let inputs = ["<think>a</think>b", "x<thinking>y</thinking>z", "<think>open only"];
    for input in inputs {
        let out = strip_think_tags(input);
        assert!(!out.contains("<think>"));
        assert!(!out.contains("<thinking>"));
    }
}

#[test]
fn find_bracketed_region_is_balanced() {
    let input = r#"noise {"a": {"b": "}"}} tail"#;
    let region = find_bracketed(input, '{', '}').unwrap();
    let mut depth = 0i64;
    let mut in_string = false;
    let mut escape = false;
    for c in region.chars() {
        if escape {
            escape = false;
            continue;
        }
        if in_string && c == '\\' {
            escape = true;
            continue;
        }
        if c == '"' {
            in_string = !in_string;
            continue;
        }
        if in_string {
            continue;
        }
        if c == '{' {
            depth += 1;
        } else if c == '}' {
            depth -= 1;
        }
    }
    assert_eq!(depth, 0);
    assert!(!in_string);
}
