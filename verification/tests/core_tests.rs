//! Tests for the configuration, diagnostics, retry, prompt, URL, and
//! decoder surfaces.

use llm_pipeline::backoff::{BackoffConfig, JitterStrategy};
use llm_pipeline::diagnostics::ParseDiagnostics;
use llm_pipeline::jsonval::JsonValue;
use llm_pipeline::prompt::{numbered_list, render, section};
use llm_pipeline::providers::{normalize_base_url, OllamaBackend, OpenAiBackend};
use llm_pipeline::retry::{run_validator, ValidatorRule};
use llm_pipeline::streaming::SseDecoder;
use llm_pipeline::retry::RetryConfig;
use llm_pipeline::backoff::parse_retry_after_secs;
use llm_pipeline::streaming::StreamingDecoder;
use llm_pipeline::types::PipelineContext;

fn keys(xs: &[&str]) -> Vec<String> {
    xs.iter().map(|s| s.to_string()).collect()
}

#[test]
fn test_diagnostics_default_is_ok() {
    let d = ParseDiagnostics::default();
    assert!(d.ok());
    assert!(d.strategy.is_none());
    assert_eq!(d.retry_attempts, 0);
    assert_eq!(d.transport_retries, 0);
    assert_eq!(d.backoff_total_ms, 0);
    assert!(!d.repaired);
    assert!(!d.auto_completed);
}

#[test]
fn test_diagnostics_with_error_is_not_ok() {
    let d = ParseDiagnostics { parse_error: Some("bad json".to_string()), ..Default::default() };
    assert!(!d.ok());
}

#[test]
fn test_normalize_base_url_strips_v1() {
    assert_eq!(normalize_base_url("https://api.openai.com/v1"), "https://api.openai.com");
    assert_eq!(normalize_base_url("https://api.openai.com/v1/"), "https://api.openai.com");
}

#[test]
fn test_normalize_base_url_strips_api() {
    assert_eq!(normalize_base_url("http://localhost:11434/api"), "http://localhost:11434");
    assert_eq!(normalize_base_url("http://localhost:11434/api/"), "http://localhost:11434");
}

#[test]
fn test_normalize_base_url_preserves_clean() {
    assert_eq!(normalize_base_url("http://localhost:11434"), "http://localhost:11434");
    assert_eq!(normalize_base_url("https://api.openai.com"), "https://api.openai.com");
}

#[test]
fn test_normalize_base_url_strips_full_path() {
    assert_eq!(
        normalize_base_url("https://api.openai.com/v1/chat/completions"),
        "https://api.openai.com"
    );
}

#[test]
fn test_normalize_base_url_trailing_slash() {
    assert_eq!(normalize_base_url("http://localhost:11434/"), "http://localhost:11434");
}

#[test]
fn test_transport_retry_populates_diagnostics() {
    let mut transport_retries: u32 = 0;
    let mut backoff_total_ms: u64 = 0;

    let mut on_retry = |attempt: u32, delay: std::time::Duration, _reason: &str| {
        transport_retries = attempt;
        backoff_total_ms += delay.as_millis() as u64;
    };

    on_retry(1, std::time::Duration::from_millis(500), "429 Too Many Requests");
    on_retry(2, std::time::Duration::from_millis(1000), "503 Service Unavailable");

    assert_eq!(transport_retries, 2);
    assert_eq!(backoff_total_ms, 1500);
}

#[test]
fn test_render_basic() {
    let ctx = PipelineContext::new().insert("name", "Alice");
    let result = render("Hello {name}, process {input}", "data", &ctx);
    assert_eq!(result, "Hello Alice, process data");
}

#[test]
fn test_render_no_placeholders() {
    let ctx = PipelineContext::new();
    let result = render("static prompt", "ignored_in_template", &ctx);
    assert_eq!(result, "static prompt");
}

#[test]
fn test_numbered_list() {
    let items = vec!["First".to_string(), "Second".to_string(), "Third".to_string()];
    let result = numbered_list(&items);
    assert_eq!(result, "1. First\n2. Second\n3. Third");
}

#[test]
fn test_numbered_list_empty() {
    let result = numbered_list(&Vec::new());
    assert_eq!(result, "");
}

#[test]
fn test_section() {
    let result = section("Context", "Some knowledge here");
    assert_eq!(result, "## Context\nSome knowledge here");
}

#[test]
fn test_render_escaped_braces() {
    let ctx = PipelineContext::new().insert("name", "Alice");
    let result = render("Hello {name}, JSON: {{\"key\": \"val\"}}", "data", &ctx);
    assert_eq!(result, r#"Hello Alice, JSON: {"key": "val"}"#);
}

#[test]
fn test_render_escaped_braces_no_substitution() {
    let ctx = PipelineContext::new();
    let result = render("Output format: {{\"result\": {{\"value\": 42}}}}", "data", &ctx);
    assert_eq!(result, r#"Output format: {"result": {"value": 42}}"#);
}

#[test]
fn test_render_mixed_escaped_and_placeholder() {
    let ctx = PipelineContext::new().insert("schema", "string");
    let result = render("Type is {schema}, format: {{\"type\": \"object\"}}", "x", &ctx);
    assert_eq!(result, r#"Type is string, format: {"type": "object"}"#);
}

#[test]
fn test_retry_config_new() {
    let config = RetryConfig::new(3);
    assert_eq!(config.max_retries, 3);
    assert!(config.validator.is_none());
    assert!(config.cool_down);
}

#[test]
fn test_retry_config_capped_at_5() {
    let config = RetryConfig::new(10);
    assert_eq!(config.max_retries, 5);
}

#[test]
fn retry_test_retry_no_cool_down() {
    let config = RetryConfig::new(2).no_cool_down();
    assert!(!config.cool_down);
}

#[test]
fn test_requiring_keys_ok() {
    let config = RetryConfig::new(2).requiring_keys(&keys(&["title", "year"]));
    let val = JsonValue::Obj(vec![
        ("title".to_string(), JsonValue::Str("Matrix".to_string())),
        ("year".to_string(), JsonValue::Num("1999".to_string())),
    ]);
    let result = config.validator.as_ref().map(|v| run_validator(v, &val));
    assert!(result.is_some());
    assert!(result.unwrap().is_ok());
}

#[test]
fn test_requiring_keys_missing() {
    let config = RetryConfig::new(2).requiring_keys(&keys(&["title", "year"]));
    let val = JsonValue::Obj(vec![(
        "title".to_string(),
        JsonValue::Str("Matrix".to_string()),
    )]);
    let result = config.validator.as_ref().map(|v| run_validator(v, &val));
    assert!(result.is_some());
    assert!(result.unwrap().is_err());
}

#[test]
fn test_requiring_keys_null() {
    let config = RetryConfig::new(2).requiring_keys(&keys(&["title"]));
    let val = JsonValue::Obj(vec![("title".to_string(), JsonValue::Null)]);
    let result = config.validator.as_ref().map(|v| run_validator(v, &val));
    assert!(result.is_some());
    assert!(result.unwrap().is_err());
}

#[test]
fn required_keys_rule_constructs() {
    let rule = ValidatorRule::RequiredKeys(keys(&["score"]));
    let bad = JsonValue::Obj(vec![("other".to_string(), JsonValue::Bool(true))]);
    assert!(run_validator(&rule, &bad).is_err());
}

#[test]
fn test_flush_remaining() {
    let mut decoder = StreamingDecoder::new();
    decoder.decode(b"{\"done\":true}");
    let flushed = decoder.flush();
    assert!(flushed.is_some());
    assert_eq!(flushed.unwrap().get("done"), Some(&JsonValue::Bool(true)));
}

#[test]
fn test_flush_empty() {
    let mut decoder = StreamingDecoder::new();
    assert!(decoder.flush().is_none());
}

#[test]
fn test_streaming_decoder_flush_recovers_truncated() {
    let mut decoder = StreamingDecoder::new();
    decoder.decode(b"{\"name\": \"Alice\", \"age\": 30");
    let flushed = decoder.flush();
    assert!(flushed.is_some());
    let val = flushed.unwrap();
    assert_eq!(val.get("name"), Some(&JsonValue::Str("Alice".to_string())));
    assert_eq!(val.get("age"), Some(&JsonValue::Num("30".to_string())));
}

#[test]
fn decoder_splits_complete_lines() {
    let mut decoder = StreamingDecoder::new();
    let chunk = b"{\"response\":\"hello\"}\n{\"response\":\"world\"}\n";
    let values = decoder.decode(chunk);
    assert_eq!(values.len(), 2);
    assert_eq!(values[0].get("response"), Some(&JsonValue::Str("hello".to_string())));
    assert_eq!(values[1].get("response"), Some(&JsonValue::Str("world".to_string())));
}

#[test]
fn decoder_buffers_partial_lines() {
    let mut decoder = StreamingDecoder::new();
    let v1 = decoder.decode(b"{\"response\":");
    assert!(v1.is_empty());
    let v2 = decoder.decode(b"\"hello\"}\n");
    assert_eq!(v2.len(), 1);
    assert_eq!(v2[0].get("response"), Some(&JsonValue::Str("hello".to_string())));
}

#[test]
fn test_debug_redacts_api_key() {
    let backend = OpenAiBackend::new().with_api_key("sk-1234567890abcdef");
    let debug_output = backend.debug_text();
    assert!(!debug_output.contains("1234567890abcdef"));
    assert!(debug_output.contains("sk-123"));
    assert!(debug_output.contains("***"));
}

#[test]
fn test_debug_no_key() {
    let backend = OpenAiBackend::new();
    let debug_output = backend.debug_text();
    assert!(debug_output.contains("None"));
}

#[test]
fn test_has_api_key() {
    let without = OpenAiBackend::new();
    assert!(!without.has_api_key());
    let with = OpenAiBackend::new().with_api_key("sk-test");
    assert!(with.has_api_key());
}

#[test]
fn test_has_organization() {
    let without = OpenAiBackend::new();
    assert!(!without.has_organization());
    let with = OpenAiBackend::new().with_organization("org-abc");
    assert!(with.has_organization());
}

#[test]
fn backoff_base_delays_grow_to_the_cap() {
    let mut config = BackoffConfig::standard();
    config.jitter = JitterStrategy::NoJitter;
    config.initial_delay_ms = 1000;
    config.multiplier_permille = 2000;
    config.max_delay_ms = 5000;
    let delays: Vec<u64> = (0..6).map(|k| config.delay_for_attempt(k)).collect();
    assert_eq!(delays, vec![1000, 2000, 4000, 5000, 5000, 5000]);
    for w in delays.windows(2) {
        assert!(w[0] <= w[1]);
    }
}

#[test]
fn backoff_jitter_stays_below_base() {
    let mut config = BackoffConfig::standard();
    config.jitter = JitterStrategy::Full;
    for _ in 0..50 {
        let d = config.delay_for_attempt(0);
        assert!(d <= 1000);
    }
}

#[test]
fn retry_after_header_parses_integer_seconds() {
    assert_eq!(parse_retry_after_secs(" 30 "), Some(30));
    assert_eq!(parse_retry_after_secs("0"), Some(0));
    assert_eq!(parse_retry_after_secs("soon"), None);
    assert_eq!(parse_retry_after_secs(""), None);
    assert_eq!(parse_retry_after_secs("18446744073709551615"), Some(u64::MAX));
    assert_eq!(parse_retry_after_secs("18446744073709551616"), None);
    assert_eq!(parse_retry_after_secs("12x"), None);
}

#[test]
fn backoff_equal_jitter_stays_in_upper_half() {
    let mut config = BackoffConfig::standard();
    config.jitter = JitterStrategy::Equal;
    for _ in 0..50 {
        let d = config.delay_for_attempt(0);
        assert!(d >= 500 && d <= 1000);
    }
}

#[test]
fn metadata_extraction_keeps_present_keys_in_order() {
    let resp = JsonValue::Obj(vec![
        ("model".to_string(), JsonValue::Str("m1".to_string())),
        ("eval_count".to_string(), JsonValue::Num("7".to_string())),
        ("unrelated".to_string(), JsonValue::Bool(true)),
    ]);
    let meta = OllamaBackend::extract_metadata(&resp).unwrap();
    assert_eq!(
        meta,
        JsonValue::Obj(vec![
            ("eval_count".to_string(), JsonValue::Num("7".to_string())),
            ("model".to_string(), JsonValue::Str("m1".to_string())),
        ])
    );
    let none = OllamaBackend::extract_metadata(&JsonValue::Obj(vec![(
        "other".to_string(),
        JsonValue::Null,
    )]));
    assert!(none.is_none());
    assert!(OllamaBackend::extract_metadata(&JsonValue::Null).is_none());
    let oa = OpenAiBackend::extract_metadata(&JsonValue::Obj(vec![(
        "usage".to_string(),
        JsonValue::Num("3".to_string()),
    )]))
    .unwrap();
    assert_eq!(
        oa,
        JsonValue::Obj(vec![("usage".to_string(), JsonValue::Num("3".to_string()))])
    );
}

#[test]
fn frame_token_extractors_read_both_wire_shapes() {
    let generate = JsonValue::Obj(vec![(
        "response".to_string(),
        JsonValue::Str("tok".to_string()),
    )]);
    assert_eq!(OllamaBackend::token_of(&generate, false).as_deref(), Some("tok"));
    assert!(OllamaBackend::token_of(&generate, true).is_none());
    let chat = JsonValue::Obj(vec![(
        "message".to_string(),
        JsonValue::Obj(vec![("content".to_string(), JsonValue::Str("hi".to_string()))]),
    )]);
    assert_eq!(OllamaBackend::token_of(&chat, true).as_deref(), Some("hi"));
    let done = JsonValue::Obj(vec![("done".to_string(), JsonValue::Bool(true))]);
    assert!(OllamaBackend::is_done(&done));
    assert!(!OllamaBackend::is_done(&generate));
    let delta = JsonValue::Obj(vec![(
        "choices".to_string(),
        JsonValue::Arr(vec![JsonValue::Obj(vec![(
            "delta".to_string(),
            JsonValue::Obj(vec![("content".to_string(), JsonValue::Str("d".to_string()))]),
        )])]),
    )]);
    assert_eq!(OpenAiBackend::delta_of(&delta).as_deref(), Some("d"));
    let content = JsonValue::Obj(vec![(
        "choices".to_string(),
        JsonValue::Arr(vec![JsonValue::Obj(vec![(
            "message".to_string(),
            JsonValue::Obj(vec![("content".to_string(), JsonValue::Str("c".to_string()))]),
        )])]),
    )]);
    assert_eq!(OpenAiBackend::content_of(&content).as_deref(), Some("c"));
    assert!(OpenAiBackend::delta_of(&content).is_none());
}

#[test]
fn validator_error_names_first_offending_key() {
    let rule = ValidatorRule::RequiredKeys(vec!["title".to_string(), "year".to_string()]);
    let missing = JsonValue::Obj(vec![(
        "title".to_string(),
        JsonValue::Str("Matrix".to_string()),
    )]);
    assert_eq!(
        run_validator(&rule, &missing).unwrap_err(),
        "missing required key: 'year'"
    );
    let null = JsonValue::Obj(vec![
        ("title".to_string(), JsonValue::Null),
        ("year".to_string(), JsonValue::Num("1999".to_string())),
    ]);
    assert_eq!(run_validator(&rule, &null).unwrap_err(), "required key 'title' is null");
}

#[test]
fn sse_flush_reads_trailing_data_line() {
    let mut decoder = SseDecoder::new();
    decoder.decode(b"data: {\"a\":1}\ndata: {\"b\"");
    let values = decoder.flush();
    assert_eq!(values.len(), 0);
    let mut decoder2 = SseDecoder::new();
    decoder2.decode(b"data: {\"a\":1}");
    let values2 = decoder2.flush();
    assert_eq!(values2.len(), 1);
    assert_eq!(values2[0].get("a"), Some(&JsonValue::Num("1".to_string())));
}
