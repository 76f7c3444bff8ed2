//! End-to-end scenarios: strategies running over canned model output,
//! transport and semantic retry against test backends, and cancellation.

use llm_pipeline::backend::{Backend, MockBackend, ScriptedBackend};
use llm_pipeline::error::PipelineError;
use llm_pipeline::output_parser::error::ParseError;
use llm_pipeline::backoff::{BackoffConfig, JitterStrategy};
use llm_pipeline::chain::{Chain, ChainStep};
use llm_pipeline::jsonval::JsonValue;
use llm_pipeline::llm_call::LlmCall;
use llm_pipeline::output_strategy::OutputStrategy;
use llm_pipeline::payload::PayloadOutput;
use llm_pipeline::retry::RetryConfig;
use llm_pipeline::types::PipelineContext;

fn no_backoff() -> BackoffConfig {
    let mut b = BackoffConfig::none();
    b.jitter = JitterStrategy::NoJitter;
    b
}

#[test]
fn repair_scenario_produces_object_and_flags() {
    let call = LlmCall::new("t", "{input}").expecting_json();
    let out = call.build_output("{'key': 'value',}".to_string());
    let expected = JsonValue::Obj(vec![(
        "key".to_string(),
        JsonValue::Str("value".to_string()),
    )]);
    assert_eq!(out.value, expected);
    let d = out.diagnostics.unwrap();
    assert_eq!(d.strategy, Some("json"));
    assert!(d.repaired);
    assert!(d.ok());
}

#[test]
fn bracket_in_prose_scenario() {
    let call = LlmCall::new("t", "{input}").expecting_json();
    let out = call.build_output(
        "Sure! Here's your result: {\"key\": \"value\"}\nHope that helps!".to_string(),
    );
    let expected = JsonValue::Obj(vec![(
        "key".to_string(),
        JsonValue::Str("value".to_string()),
    )]);
    assert_eq!(out.value, expected);
    assert!(out.diagnostics.unwrap().ok());
}

#[test]
fn reasoning_and_fenced_block_scenario() {
    let input = "<think>hmm</think>\n```json\n[\"landscape\", \"sunset\"]\n```";
    let tags = llm_pipeline::output_parser::listparse::parse_string_list(input).unwrap();
    assert_eq!(tags, vec!["landscape", "sunset"]);
}

#[test]
fn truncated_json_scenario_drops_orphan_key() {
    let completed = llm_pipeline::output_parser::streaming::auto_complete_json(
        "{\"title\": \"Matrix\", \"year\": 1999, \"rating",
    )
    .unwrap();
    let got: serde_json::Value = serde_json::from_str(&completed).unwrap();
    let want: serde_json::Value =
        serde_json::from_str("{\"title\":\"Matrix\",\"year\":1999}").unwrap();
    assert_eq!(got, want);
}

#[test]
fn choice_in_prose_scenario() {
    let call = LlmCall::new("t", "{input}").expecting_choice(vec![
        "positive".to_string(),
        "negative".to_string(),
    ]);
    let out = call.build_output("I'd classify this as positive".to_string());
    assert_eq!(out.value, JsonValue::Str("positive".to_string()));
    assert!(out.diagnostics.unwrap().ok());
}

#[test]
fn number_with_label_scenario() {
    let call = LlmCall::new("t", "{input}").expecting_number();
    let out = call.build_output("Score: 8.5/10".to_string());
    assert_eq!(out.value, JsonValue::Num("8.5".to_string()));
    assert!(out.diagnostics.unwrap().ok());

    let bounded = LlmCall::new("t", "{input}").expecting_number_in_range(0, 5);
    let out2 = bounded.build_output("Score: 8.5/10".to_string());
    let d2 = out2.diagnostics.unwrap();
    assert!(d2.parse_error.is_some());
    // The raw text is preserved as a best-effort string value.
    assert!(matches!(out2.value, JsonValue::Str(_)));
}

#[test]
fn transport_retry_scenario() {
    let mut backend = ScriptedBackend::new(vec![503, 503], "{\"ok\": true}");
    let mut backoff = BackoffConfig::standard();
    backoff.max_retries = 3;
    backoff.initial_delay_ms = 10;
    backoff.multiplier_permille = 2000;
    backoff.jitter = JitterStrategy::NoJitter;
    backoff.retryable_statuses = vec![503];
    let call = LlmCall::new("t", "{input}").expecting_json();
    let vars = PipelineContext::new();
    let outcome = call.invoke_with(
        &mut backend,
        &vars,
        &backoff,
        false,
        &JsonValue::Str("go".to_string()),
    );
    let out = outcome.result.unwrap();
    assert_eq!(out.value.get("ok"), Some(&JsonValue::Bool(true)));
    let d = out.diagnostics.unwrap();
    assert_eq!(d.transport_retries, 2);
    assert_eq!(d.backoff_total_ms, 30);
}

#[test]
fn semantic_retry_scenario() {
    let mut backend = MockBackend::new(vec![
        "{\"title\": \"Matrix\"}".to_string(),
        "{\"title\": \"Matrix\", \"year\": 1999}".to_string(),
    ]);
    let call = LlmCall::new("t", "{input}")
        .expecting_json()
        .with_retry(RetryConfig::new(2).requiring_keys(&vec![
            "title".to_string(),
            "year".to_string(),
        ]));
    let vars = PipelineContext::new();
    let outcome = call.invoke_with(
        &mut backend,
        &vars,
        &no_backoff(),
        false,
        &JsonValue::Str("go".to_string()),
    );
    assert_eq!(outcome.backend_calls, 2);
    let out = outcome.result.unwrap();
    let d = out.diagnostics.unwrap();
    assert_eq!(d.retry_attempts, 1);
    assert!(d.parse_error.is_none());
    assert_eq!(out.value.get("year"), Some(&JsonValue::Num("1999".to_string())));
}

#[test]
fn cancellation_scenario_makes_no_model_call() {
    let mut backend = MockBackend::fixed("never used");
    let call = LlmCall::new("t", "{input}");
    let vars = PipelineContext::new();
    let outcome = call.invoke_with(
        &mut backend,
        &vars,
        &no_backoff(),
        true,
        &JsonValue::Str("go".to_string()),
    );
    assert_eq!(outcome.backend_calls, 0);
    assert!(matches!(
        outcome.result,
        Err(llm_pipeline::error::PipelineError::Cancelled)
    ));
    // The backend cursor never moved.
    assert_eq!(backend.index, 0);
}

#[test]
fn semantic_retry_exhaustion_returns_best_effort() {
    let mut backend = MockBackend::fixed("not json at all, ever");
    let call = LlmCall::new("t", "{input}")
        .expecting_json()
        .with_retry(RetryConfig::new(2));
    let vars = PipelineContext::new();
    let outcome = call.invoke_with(
        &mut backend,
        &vars,
        &no_backoff(),
        false,
        &JsonValue::Str("go".to_string()),
    );
    assert_eq!(outcome.backend_calls, 3);
    let out = outcome.result.unwrap();
    let d = out.diagnostics.unwrap();
    assert_eq!(d.retry_attempts, 2);
    assert!(d.parse_error.is_some());
}

#[test]
fn mock_backend_cycles_responses() {
    let mut mock = MockBackend::new(vec!["first".to_string(), "second".to_string()]);
    let r1 = mock.next_response();
    let r2 = mock.next_response();
    let r3 = mock.next_response();
    assert_eq!(r1, "first");
    assert_eq!(r2, "second");
    assert_eq!(r3, "first");
}

#[test]
fn chain_pipes_values_between_steps() {
    let mut backend = MockBackend::new(vec![
        "{\"from\": \"a\"}".to_string(),
        "{\"from\": \"b\"}".to_string(),
    ]);
    let chain = Chain::new("test")
        .push(ChainStep::Call(LlmCall::new("one", "{input}").expecting_json()))
        .push(ChainStep::Call(LlmCall::new("two", "{input}").expecting_json()));
    let vars = PipelineContext::new();
    let (result, _events) = chain.execute_all(
        &mut backend,
        &vars,
        &no_backoff(),
        false,
        JsonValue::Str("start".to_string()),
    );
    let outputs = result.unwrap();
    assert_eq!(outputs.len(), 2);
    assert_eq!(outputs[0].value.get("from"), Some(&JsonValue::Str("a".to_string())));
    assert_eq!(outputs[1].value.get("from"), Some(&JsonValue::Str("b".to_string())));
}

#[test]
fn chain_empty_fails() {
    let mut backend = MockBackend::fixed("x");
    let chain = Chain::new("empty");
    let vars = PipelineContext::new();
    let (result, _events) =
        chain.execute(&mut backend, &vars, &no_backoff(), false, JsonValue::Null);
    assert!(matches!(
        result,
        Err(llm_pipeline::error::PipelineError::InvalidConfig(_))
    ));
}

#[test]
fn chain_cancellation_stops_before_any_step() {
    let mut backend = MockBackend::fixed("x");
    let chain = Chain::new("test").push(ChainStep::Call(LlmCall::new("a", "{input}")));
    let vars = PipelineContext::new();
    let (result, _events) = chain.execute(
        &mut backend,
        &vars,
        &no_backoff(),
        true,
        JsonValue::Str("x".to_string()),
    );
    assert!(matches!(result, Err(llm_pipeline::error::PipelineError::Cancelled)));
    assert_eq!(backend.index, 0);
}

#[test]
fn chain_nests() {
    let mut backend = MockBackend::fixed("{\"v\": 1}");
    let inner = Chain::new("inner").push(ChainStep::Call(
        LlmCall::new("inner-step", "{input}").expecting_json(),
    ));
    let outer = Chain::new("outer").push(ChainStep::Nested(inner));
    let vars = PipelineContext::new();
    let (result, _events) = outer.execute(
        &mut backend,
        &vars,
        &no_backoff(),
        false,
        JsonValue::Str("input".to_string()),
    );
    let out = result.unwrap();
    assert_eq!(out.value.get("v"), Some(&JsonValue::Num("1".to_string())));
}

#[test]
fn streaming_invocation_emits_tokens_matching_raw() {
    let mut backend = MockBackend::fixed("hello world");
    let call = LlmCall::new("t", "{input}").with_streaming(true);
    let vars = PipelineContext::new();
    let outcome = call.invoke_with(
        &mut backend,
        &vars,
        &no_backoff(),
        false,
        &JsonValue::Str("go".to_string()),
    );
    let out = outcome.result.unwrap();
    let mut concatenated = String::new();
    for event in &outcome.events {
        if let llm_pipeline::events::Event::Token { chunk, .. } = event {
            concatenated.push_str(chunk);
        }
    }
    assert_eq!(concatenated, out.raw_response);
}

#[test]
fn payload_output_from_value_prints_raw() {
    let value = JsonValue::Obj(vec![
        ("a".to_string(), JsonValue::Num("1".to_string())),
        ("b".to_string(), JsonValue::Arr(vec![JsonValue::Bool(true), JsonValue::Null])),
    ]);
    let out = PayloadOutput::from_value(value);
    assert_eq!(out.raw_response, "{\"a\":1,\"b\":[true,null]}");
    assert!(out.diagnostics.is_none());
}

#[test]
fn build_output_strategy_tag_always_recorded() {
    let strategies: Vec<OutputStrategy> = vec![
        OutputStrategy::Lossy,
        OutputStrategy::Json,
        OutputStrategy::StringList,
        OutputStrategy::Text,
        OutputStrategy::Number,
    ];
    let tags = ["lossy", "json", "string_list", "text", "number"];
    for (strategy, tag) in strategies.into_iter().zip(tags) {
        let call = LlmCall::new("t", "{input}").with_output_strategy(strategy);
        let out = call.build_output("whatever".to_string());
        assert_eq!(out.diagnostics.unwrap().strategy, Some(tag));
    }
}

#[test]
fn payload_renderer_protects_doubled_braces() {
    let ctx = PipelineContext::new().insert("name", "Alice");
    let prompt = LlmCall::render_prompt(
        "Hello {name}, process {input}, format: {{\"k\": 1}}",
        "data",
        &ctx,
    );
    assert_eq!(prompt, "Hello Alice, process data, format: {\"k\": 1}");
    let system = LlmCall::render_system("You are {name}. Reply as {{\"s\": 1}}", &ctx);
    assert_eq!(system, "You are Alice. Reply as {\"s\": 1}");
}

#[test]
fn semantic_retry_accumulates_transport_diagnostics() {
    // One transport failure during the initial attempt, then parse
    // failures that trigger one semantic retry: the transport counters
    // of the first attempt must survive into the final diagnostics.
    let mut backend = ScriptedBackend::new(vec![503], "still not json at all");
    let mut backoff = BackoffConfig::standard();
    backoff.max_retries = 1;
    backoff.initial_delay_ms = 10;
    backoff.jitter = JitterStrategy::NoJitter;
    backoff.respect_retry_after = false;
    backoff.retryable_statuses = vec![503];
    let call = LlmCall::new("t", "{input}")
        .expecting_json()
        .with_retry(RetryConfig::new(1));
    let vars = PipelineContext::new();
    let outcome = call.invoke_with(
        &mut backend,
        &vars,
        &backoff,
        false,
        &JsonValue::Str("go".to_string()),
    );
    let out = outcome.result.unwrap();
    let d = out.diagnostics.unwrap();
    assert_eq!(d.retry_attempts, 1);
    assert_eq!(d.transport_retries, 1);
    assert_eq!(d.backoff_total_ms, 10);
}

#[test]
fn transport_retry_event_carries_error_message() {
    let mut backend = ScriptedBackend::new(vec![503], "{\"ok\": true}");
    let mut backoff = BackoffConfig::standard();
    backoff.max_retries = 1;
    backoff.initial_delay_ms = 10;
    backoff.jitter = JitterStrategy::NoJitter;
    backoff.retryable_statuses = vec![503];
    let call = LlmCall::new("t", "{input}").expecting_json();
    let vars = PipelineContext::new();
    let outcome = call.invoke_with(
        &mut backend,
        &vars,
        &backoff,
        false,
        &JsonValue::Str("go".to_string()),
    );
    assert!(outcome.result.is_ok());
    let mut saw_reason = false;
    for event in &outcome.events {
        if let llm_pipeline::events::Event::TransportRetry { reason, .. } = event {
            assert!(reason.contains("scripted failure"));
            saw_reason = true;
        }
    }
    assert!(saw_reason);
}

#[test]
fn cancelled_invocation_emits_no_events() {
    let mut backend = MockBackend::fixed("never used");
    let call = LlmCall::new("t", "{input}");
    let vars = PipelineContext::new();
    let outcome = call.invoke_with(
        &mut backend,
        &vars,
        &no_backoff(),
        true,
        &JsonValue::Str("go".to_string()),
    );
    assert!(outcome.events.is_empty());
    assert!(outcome.result.is_err());
}

#[test]
fn error_messages_name_their_kind() {
    assert_eq!(PipelineError::Cancelled.message(), "Pipeline was cancelled");
    let http = PipelineError::HttpError {
        status: 503,
        body: "unavailable".to_string(),
        retry_after_ms: Some(30000),
    };
    assert!(http.message().contains("unavailable"));
}

#[test]
fn parse_error_variants_from_inputs() {
    assert!(matches!(
        llm_pipeline::output_parser::textparse::parse_text("   "),
        Err(ParseError::EmptyResponse)
    ));
    assert!(matches!(
        llm_pipeline::output_parser::number::parse_number("nothing here"),
        Err(ParseError::NoNumber)
    ));
    assert!(matches!(
        llm_pipeline::output_parser::choice::parse_choice(
            "maybe",
            &vec!["yes".to_string(), "no".to_string()]
        ),
        Err(ParseError::NoMatchingChoice { .. })
    ));
    assert!(matches!(
        llm_pipeline::output_parser::listparse::parse_string_list("\"\""),
        Err(ParseError::Unparseable { .. })
    ));
}
