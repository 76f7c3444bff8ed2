//! The LLM call payload: render the prompt, dispatch through the backend
//! with transport retry, parse the response under the configured output
//! strategy, and re-ask the model on semantic failure.

use vstd::prelude::*;
use crate::backend::{concat_chunks, is_retryable, Backend, ChatMessage, LlmRequest, LlmResponse, Role};
use crate::backoff::BackoffConfig;
use crate::client::LlmConfig;
use crate::diagnostics::ParseDiagnostics;
use crate::error::PipelineError;
use crate::events::Event;
use crate::jsonval::{JsonValue, JsonV};
use crate::json::{json_parse_ok, ser};
use crate::output_strategy::{strategy_tag, OutputStrategy};
use crate::output_parser::error::{string_from, ParseError};
use crate::parsing::thinking_spec;
use crate::payload::PayloadOutput;
use crate::retry::{run_validator, RetryConfig, ValidatorRule};
use crate::types::PipelineContext;

verus! {

/// An LLM call payload: a named prompt template with model,
/// configuration, output strategy, and optional semantic retry.
#[derive(Debug)]
pub struct LlmCall {
    /// Instance name, for events and logs.
    pub name: String,
    /// Prompt template with `{input}` and `{key}` placeholders.
    pub prompt_template: String,
    /// Optional system prompt template.
    pub system_template: Option<String>,
    /// Model identifier.
    pub model: String,
    /// Request configuration.
    pub config: LlmConfig,
    /// Whether to use the streaming endpoint.
    pub streaming: bool,
    /// How raw text becomes a structured value.
    pub output_strategy: OutputStrategy,
    /// Optional semantic retry configuration.
    pub retry: Option<RetryConfig>,
}

/// String items as string values, element by element.
pub open spec fn str_arr(ss: Seq<Seq<char>>) -> Seq<JsonV> {
    Seq::new(ss.len(), |i: int| JsonV::Str(ss[i]))
}

/// What one invocation reports back: the result, the events that arose,
/// and how many model calls were made.
#[derive(Debug)]
pub struct InvokeOutcome {
    /// The payload output, or the error that ended the invocation.
    pub result: Result<PayloadOutput, PipelineError>,
    /// The lifecycle events, in emission order.
    pub events: Vec<Event>,
    /// How many model calls were dispatched.
    pub backend_calls: u32,
}

impl LlmCall {
    /// A new LLM call with a prompt template and the defaults.
    pub fn new(name: &str, prompt_template: &str) -> (r: LlmCall)
        ensures
            r.name@ == name@,
            r.prompt_template@ == prompt_template@,
            r.system_template is None,
            r.model@ == "llama3.2:3b"@,
            r.streaming == false,
            r.output_strategy is Lossy,
            r.retry is None,
    {
        LlmCall {
            name: string_from(name),
            prompt_template: string_from(prompt_template),
            system_template: None,
            model: string_from("llama3.2:3b"),
            config: Default::default(),
            streaming: false,
            output_strategy: OutputStrategy::Lossy,
            retry: None,
        }
    }

    /// The prompt template.
    pub fn prompt_template(&self) -> (r: &str)
        ensures
            r@ == self.prompt_template@,
    {
        self.prompt_template.as_str()
    }

    /// The system template, if any.
    pub fn system_template(&self) -> (r: Option<&str>)
        ensures
            match r {
                Some(t) => self.system_template matches Some(s) && t@ == s@,
                None => self.system_template is None,
            },
    {
        match &self.system_template {
            Some(t) => Some(t.as_str()),
            None => None,
        }
    }

    /// The model identifier.
    pub fn model(&self) -> (r: &str)
        ensures
            r@ == self.model@,
    {
        self.model.as_str()
    }

    /// The request configuration.
    pub fn config(&self) -> (r: &LlmConfig)
        ensures
            r == &self.config,
    {
        &self.config
    }

    /// Whether streaming is enabled.
    pub fn is_streaming(&self) -> (r: bool)
        ensures
            r == self.streaming,
    {
        self.streaming
    }

    /// The output strategy.
    pub fn output_strategy(&self) -> (r: &OutputStrategy)
        ensures
            r == &self.output_strategy,
    {
        &self.output_strategy
    }

    /// The retry configuration, if any.
    pub fn retry(&self) -> (r: Option<&RetryConfig>)
        ensures
            match r {
                Some(c) => self.retry matches Some(rc) && c == &rc,
                None => self.retry is None,
            },
    {
        self.retry.as_ref()
    }

    /// Set a system prompt template.
    pub fn with_system(self, template: &str) -> (r: LlmCall)
        ensures
            r.system_template matches Some(t) && t@ == template@,
            r.prompt_template == self.prompt_template,
            r.output_strategy == self.output_strategy,
    {
        LlmCall { system_template: Some(string_from(template)), ..self }
    }

    /// Set the model.
    pub fn with_model(self, model: &str) -> (r: LlmCall)
        ensures
            r.model@ == model@,
            r.prompt_template == self.prompt_template,
            r.output_strategy == self.output_strategy,
    {
        LlmCall { model: string_from(model), ..self }
    }

    /// Set the request configuration.
    pub fn with_config(self, config: LlmConfig) -> (r: LlmCall)
        ensures
            r.config == config,
            r.prompt_template == self.prompt_template,
    {
        LlmCall { config, ..self }
    }

    /// Enable or disable streaming.
    pub fn with_streaming(self, enabled: bool) -> (r: LlmCall)
        ensures
            r.streaming == enabled,
            r.prompt_template == self.prompt_template,
    {
        LlmCall { streaming: enabled, ..self }
    }

    /// Set the output strategy.
    pub fn with_output_strategy(self, strategy: OutputStrategy) -> (r: LlmCall)
        ensures
            r.output_strategy == strategy,
            r.prompt_template == self.prompt_template,
    {
        LlmCall { output_strategy: strategy, ..self }
    }

    /// Set the retry configuration.
    pub fn with_retry(self, retry: RetryConfig) -> (r: LlmCall)
        ensures
            r.retry == Some(retry),
            r.prompt_template == self.prompt_template,
    {
        LlmCall { retry: Some(retry), ..self }
    }

    /// Expect JSON output.
    pub fn expecting_json(self) -> (r: LlmCall)
        ensures
            r.output_strategy is Json,
    {
        LlmCall { output_strategy: OutputStrategy::Json, ..self }
    }

    /// Expect a list of strings.
    pub fn expecting_list(self) -> (r: LlmCall)
        ensures
            r.output_strategy is StringList,
    {
        LlmCall { output_strategy: OutputStrategy::StringList, ..self }
    }

    /// Expect one of the given choices.
    pub fn expecting_choice(self, choices: Vec<String>) -> (r: LlmCall)
        ensures
            r.output_strategy == OutputStrategy::Choice(choices),
    {
        LlmCall { output_strategy: OutputStrategy::Choice(choices), ..self }
    }

    /// Expect a number.
    pub fn expecting_number(self) -> (r: LlmCall)
        ensures
            r.output_strategy is Number,
    {
        LlmCall { output_strategy: OutputStrategy::Number, ..self }
    }

    /// Expect a number within an inclusive integer range.
    pub fn expecting_number_in_range(self, min: i64, max: i64) -> (r: LlmCall)
        ensures
            r.output_strategy == OutputStrategy::NumberInRange(min, max),
    {
        LlmCall { output_strategy: OutputStrategy::NumberInRange(min, max), ..self }
    }

    /// Expect clean text output.
    pub fn expecting_text(self) -> (r: LlmCall)
        ensures
            r.output_strategy is Text,
    {
        LlmCall { output_strategy: OutputStrategy::Text, ..self }
    }

    /// Render the prompt template: `{input}` takes the input, `{key}`
    /// takes each context value, and doubled braces yield literal ones
    /// through the three-pass protect/substitute/restore rendering.
    pub fn render_prompt(template: &str, input: &str, vars: &PipelineContext) -> (r: String)
        ensures
            r@ == crate::prompt::render_spec(
                template@,
                input@,
                vars.data@.map_values(|p: (String, String)| (p.0@, p.1@)),
            ),
    {
        crate::prompt::render(template, input, vars)
    }

    /// Render a template with context variables only, with the same
    /// brace protection.
    pub fn render_system(template: &str, vars: &PipelineContext) -> (r: String)
        ensures
            r@ == crate::prompt::render_vars_spec(
                template@,
                vars.data@.map_values(|p: (String, String)| (p.0@, p.1@)),
            ),
    {
        crate::prompt::render_vars(template, vars)
    }

    /// A structured input as prompt text: strings verbatim, any other
    /// value in its printed JSON form.
    pub fn input_to_string(input: &JsonValue) -> (r: String)
        ensures
            match input@ {
                JsonV::Str(s) => r@ == s,
                _ => r@ == ser(input@),
            },
    {
        match input {
            JsonValue::Str(s) => string_from(s.as_str()),
            _ => crate::json::to_json_text(input),
        }
    }

    /// Build a normalized request from the current state.
    pub fn build_request(
        &self,
        prompt: &str,
        system: &Option<String>,
        messages: Vec<ChatMessage>,
        stream: bool,
    ) -> (r: LlmRequest)
        ensures
            r.model@ == self.model@,
            match (r.system_prompt, system) {
                (Some(a), Some(b)) => a@ == b@,
                (None, None) => true,
                _ => false,
            },
            r.prompt@ == prompt@,
            r.messages == messages,
            crate::client::config_eqv(r.config, self.config),
            r.stream == stream,
    {
        LlmRequest {
            model: string_from(self.model.as_str()),
            system_prompt: match system {
                Some(s) => Some(string_from(s.as_str())),
                None => None,
            },
            prompt: string_from(prompt),
            messages,
            config: self.config.duplicate(),
            stream,
        }
    }

    /// Build a payload output from raw LLM text using the configured
    /// output strategy. This always returns an output: parse failures go
    /// into the diagnostics, never into an error.
    pub fn build_output(&self, raw_text: String) -> (out: PayloadOutput)
        ensures
            out.diagnostics matches Some(d) && d.strategy matches Some(tag) && tag@
                == strategy_tag(self.output_strategy),
            out.raw_response@ == raw_text@,
            out.model matches Some(m) && m@ == self.model@,
            out.diagnostics matches Some(d) && d.retry_attempts == 0 && d.transport_retries == 0
                && d.backoff_total_ms == 0 && !d.auto_completed,
            out.diagnostics matches Some(d) && (d.repaired <==> (self.output_strategy is Json
                && d.parse_error is None && !json_parse_ok(thinking_spec(raw_text@).1))),
            ({
                let tk = thinking_spec(raw_text@).0;
                match (out.thinking, tk) {
                    (Some(a), Some(b)) => a@ == b,
                    (None, None) => true,
                    _ => false,
                }
            }),
            ({
                let cl = thinking_spec(raw_text@).1;
                let ok = out.diagnostics matches Some(d) && d.parse_error is None;
                match self.output_strategy {
                    OutputStrategy::Lossy => ok && out.value@ == crate::parsing::lossy_spec(
                        crate::text::trim_spec(cl),
                    ),
                    OutputStrategy::Json => (ok <==> (crate::text::trim_spec(cl).len() > 0
                        && crate::output_parser::listparse::list_cleaned(cl).len() > 0
                        && crate::output_parser::jsonparse::json_value_spec(
                        crate::output_parser::listparse::list_cleaned(cl),
                    ) is Some)) && (ok
                        ==> crate::output_parser::jsonparse::json_value_spec(
                        crate::output_parser::listparse::list_cleaned(cl),
                    ) == Some(out.value@)) && (!ok ==> out.value@
                        == crate::parsing::lossy_spec(crate::text::trim_spec(cl))),
                    OutputStrategy::StringList => (ok <==> (crate::text::trim_spec(
                        cl,
                    ).len() > 0 && (crate::output_parser::listparse::direct_strings(
                        crate::text::trim_spec(cl),
                    ) is Some || crate::output_parser::listparse::list_cleaned(cl).len() > 0)
                        && crate::output_parser::listparse::list_inner_spec(
                        crate::text::trim_spec(cl),
                        crate::output_parser::listparse::list_cleaned(cl),
                    ) is Some)) && (ok
                        ==> (crate::output_parser::listparse::list_inner_spec(
                        crate::text::trim_spec(cl),
                        crate::output_parser::listparse::list_cleaned(cl),
                    ) matches Some(raw) && out.value@ == JsonV::Arr(
                        str_arr(crate::output_parser::listparse::raw_clean(raw)),
                    ))) && (!ok ==> out.value@ == JsonV::Str(cl)),
                    OutputStrategy::XmlTag(ref tag) => (ok <==> (
                    crate::output_parser::extract::preprocess_spec(cl).len() > 0
                        && crate::output_parser::xml::xml_tag_spec(
                        crate::output_parser::extract::preprocess_spec(cl),
                        tag@,
                    ) is Some)) && (ok ==> (out.value@ matches JsonV::Str(c)
                        && crate::output_parser::xml::xml_tag_spec(
                        crate::output_parser::extract::preprocess_spec(cl),
                        tag@,
                    ) == Some(c))) && (!ok ==> out.value@ == JsonV::Str(cl)),
                    OutputStrategy::Choice(ref choices) => (ok <==> (
                    crate::output_parser::extract::preprocess_spec(cl).len() > 0
                        && crate::output_parser::choice::choice_index_spec(
                        crate::output_parser::extract::preprocess_spec(cl),
                        choices@.map_values(|x: String| x@),
                    ) is Some)) && (ok ==> (out.value@ matches
                        JsonV::Str(c) && (crate::output_parser::choice::choice_index_spec(
                        crate::output_parser::extract::preprocess_spec(cl),
                        choices@.map_values(|x: String| x@),
                    ) matches Some(i) && c == choices@[i]@))) && (!ok ==> out.value@
                        == JsonV::Str(cl)),
                    OutputStrategy::Number => (ok <==> (
                    crate::output_parser::extract::preprocess_spec(cl).len() > 0
                        && crate::output_parser::number::number_spec(
                        crate::output_parser::extract::preprocess_spec(cl),
                    ) is Some)) && (ok ==> (out.value@ matches JsonV::Num(lit)
                        && crate::output_parser::number::number_spec(
                        crate::output_parser::extract::preprocess_spec(cl),
                    ) == Some(lit))) && (!ok ==> out.value@ == JsonV::Str(cl)),
                    OutputStrategy::NumberInRange(mn, mx) => (ok <==> (
                    crate::output_parser::extract::preprocess_spec(cl).len() > 0
                        && (crate::output_parser::number::number_spec(
                        crate::output_parser::extract::preprocess_spec(cl),
                    ) matches Some(lit) && crate::output_parser::number::is_num_lit(lit)
                        && crate::output_parser::number::in_range_spec(lit, mn, mx)))) && (ok
                        ==> (out.value@ matches JsonV::Num(lit)
                        && crate::output_parser::number::number_spec(
                        crate::output_parser::extract::preprocess_spec(cl),
                    ) == Some(lit) && crate::output_parser::number::is_num_lit(lit)
                        && crate::output_parser::number::in_range_spec(lit, mn, mx))) && (!ok
                        ==> out.value@ == JsonV::Str(cl)),
                    OutputStrategy::Text => (ok <==> (
                    crate::output_parser::extract::preprocess_spec(cl).len() > 0
                        && crate::output_parser::textparse::text_spec(
                        crate::output_parser::extract::preprocess_spec(cl),
                    ).len() > 0)) && (ok ==> (out.value@ matches JsonV::Str(c) && c
                        == crate::output_parser::textparse::text_spec(
                        crate::output_parser::extract::preprocess_spec(cl),
                    ))) && (!ok ==> out.value@ == JsonV::Str(cl)),
                }
            }),
    {
        let (thinking, cleaned) = crate::parsing::extract_thinking(raw_text.as_str());
        let mut diag: ParseDiagnostics = Default::default();
        diag.strategy = Some(self.output_strategy.tag());
        let value: JsonValue = match &self.output_strategy {
            OutputStrategy::Lossy => crate::parsing::parse_value_lossy(cleaned.as_str()),
            OutputStrategy::Json => {
                match crate::output_parser::jsonparse::parse_json_value(cleaned.as_str()) {
                    Ok(v) => v,
                    Err(e) => {
                        diag.parse_error = Some(e.message());
                        crate::parsing::parse_value_lossy(cleaned.as_str())
                    }
                }
            }
            OutputStrategy::StringList => {
                match crate::output_parser::listparse::parse_string_list_raw(cleaned.as_str()) {
                    Ok(items) => {
                        let mut arr: Vec<JsonValue> = Vec::new();
                        let n = items.len();
                        let mut i: usize = 0;
                        while i < n
                            invariant
                                0 <= i <= n,
                                n == items@.len(),
                                arr@.len() == i as int,
                                forall|k: int| 0 <= k < i ==> (#[trigger] arr@[k])@
                                    == JsonV::Str(items@[k]@),
                            decreases n - i,
                        {
                            arr.push(JsonValue::Str(string_from(items[i].as_str())));
                            i = i + 1;
                        }
                        let r = JsonValue::Arr(arr);
                        proof {
                            crate::jsonval::lemma_jv_seq(arr@);
                            assert(r@->Arr_0 =~= str_arr(items@.map_values(|x: String| x@)));
                        }
                        r
                    }
                    Err(e) => {
                        diag.parse_error = Some(e.message());
                        JsonValue::Str(string_from(cleaned.as_str()))
                    }
                }
            }
            OutputStrategy::XmlTag(tag) => {
                match crate::output_parser::xml::parse_xml_tag(cleaned.as_str(), tag.as_str()) {
                    Ok(content) => JsonValue::Str(content),
                    Err(e) => {
                        diag.parse_error = Some(e.message());
                        JsonValue::Str(string_from(cleaned.as_str()))
                    }
                }
            }
            OutputStrategy::Choice(choices) => {
                match crate::output_parser::choice::parse_choice(cleaned.as_str(), choices) {
                    Ok(matched) => JsonValue::Str(matched),
                    Err(e) => {
                        diag.parse_error = Some(e.message());
                        JsonValue::Str(string_from(cleaned.as_str()))
                    }
                }
            }
            OutputStrategy::Number => {
                match crate::output_parser::number::parse_number(cleaned.as_str()) {
                    Ok(lit) => JsonValue::Num(lit),
                    Err(e) => {
                        diag.parse_error = Some(e.message());
                        JsonValue::Str(string_from(cleaned.as_str()))
                    }
                }
            }
            OutputStrategy::NumberInRange(min, max) => {
                match crate::output_parser::number::parse_number_in_range(
                    cleaned.as_str(),
                    *min,
                    *max,
                ) {
                    Ok(lit) => JsonValue::Num(lit),
                    Err(e) => {
                        diag.parse_error = Some(e.message());
                        JsonValue::Str(string_from(cleaned.as_str()))
                    }
                }
            }
            OutputStrategy::Text => {
                match crate::output_parser::textparse::parse_text(cleaned.as_str()) {
                    Ok(text) => JsonValue::Str(text),
                    Err(e) => {
                        diag.parse_error = Some(e.message());
                        JsonValue::Str(string_from(cleaned.as_str()))
                    }
                }
            }
        };
        let is_json = match &self.output_strategy {
            OutputStrategy::Json => true,
            _ => false,
        };
        if is_json && diag.parse_error.is_none() {
            if !crate::json::text_parses(cleaned.as_str()) {
                diag.repaired = true;
            }
        }
        PayloadOutput {
            value,
            raw_response: raw_text,
            thinking,
            model: Some(string_from(self.model.as_str())),
            diagnostics: Some(diag),
        }
    }

    /// Whether a retry is needed: the parse error, or the validator's
    /// complaint, if either is present.
    pub fn check_retry_needed(&self, output: &PayloadOutput, retry_config: &RetryConfig) -> (r:
        Option<String>)
        ensures
            r is None <==> (match output.diagnostics {
                Some(d) => d.parse_error is None,
                None => true,
            }) && (match retry_config.validator {
                Some(v) => match v {
                    ValidatorRule::RequiredKeys(ks) => crate::retry::keys_ok(
                        output.value@,
                        ks@.map_values(|x: String| x@),
                        0,
                    ),
                },
                None => true,
            }),
            r matches Some(m) ==> ((output.diagnostics matches Some(d) && d.parse_error matches
                Some(pe) && m@ == pe@) || ((match output.diagnostics {
                Some(d) => d.parse_error is None,
                None => true,
            }) && retry_config.validator is Some)),
    {
        match &output.diagnostics {
            Some(d) => {
                match &d.parse_error {
                    Some(err) => {
                        return Some(string_from(err.as_str()));
                    }
                    None => {}
                }
            }
            None => {}
        }
        match &retry_config.validator {
            Some(rule) => {
                match run_validator(rule, &output.value) {
                    Ok(_) => None,
                    Err(reason) => Some(reason),
                }
            }
            None => None,
        }
    }
}

/// What one transport-level dispatch reports: the response or final
/// error, the retries taken, the backoff time accumulated, and the
/// events that arose.
pub struct DispatchOutcome {
    /// The response, or the error that ended the attempt sequence.
    pub result: Result<LlmResponse, PipelineError>,
    /// Tokens of the (successful) streaming response, in order.
    pub tokens: Vec<String>,
    /// How many retries were taken.
    pub transport_retries: u32,
    /// Total backoff delay recorded, in milliseconds.
    pub backoff_total_ms: u64,
    /// Transport retry events, in order.
    pub events: Vec<Event>,
}

/// Dispatch one request through a backend with transport-level retry:
/// retryable failures are retried up to the policy's budget with
/// exponential backoff, honoring `Retry-After` when configured.
#[verifier::loop_isolation(false)]
pub fn with_backoff<B: Backend>(
    backend: &mut B,
    name: &str,
    request: &LlmRequest,
    config: &BackoffConfig,
) -> (r: DispatchOutcome)
    ensures
        r.transport_retries <= config.max_retries,
        r.result matches Ok(resp) ==> (request.stream ==> resp.text@ == concat_chunks(
            r.tokens@.map_values(|t: String| t@),
        )),
        !request.stream ==> r.tokens@.len() == 0,
        r.result matches Err(e) ==> (!crate::backend::is_retryable_spec(
            e,
            config.retryable_statuses@,
        ) || r.transport_retries == config.max_retries),
        (config.jitter is NoJitter && !config.respect_retry_after) ==> r.backoff_total_ms
            == crate::backoff::sat_u64(
            crate::backoff::base_delay_sum(
                config.initial_delay_ms,
                config.multiplier_permille,
                config.max_delay_ms,
                r.transport_retries as int,
            ),
        ),
        crate::events::token_chunks(r.events@) == Seq::<Seq<char>>::empty(),
{
    let mut transport_retries: u32 = 0;
    let mut backoff_total_ms: u64 = 0;
    let mut events: Vec<Event> = Vec::new();
    proof {
        assert(crate::events::token_chunks(events@) =~= Seq::<Seq<char>>::empty());
    }
    let mut last_retry_after: Option<u64> = None;
    let mut last_reason: String = String::new();
    let mut attempt: u32 = 0;
    loop
        invariant
            attempt <= config.max_retries,
            transport_retries == if attempt > 0 {
                attempt - 1
            } else {
                0int
            },
            (config.jitter is NoJitter && !config.respect_retry_after) ==> backoff_total_ms
                == crate::backoff::sat_u64(
                crate::backoff::base_delay_sum(
                    config.initial_delay_ms,
                    config.multiplier_permille,
                    config.max_delay_ms,
                    transport_retries as int,
                ),
            ),
            crate::events::token_chunks(events@) == Seq::<Seq<char>>::empty(),
        decreases config.max_retries + 1 - attempt,
    {
        if attempt > 0 {
            let delay: u64 = match last_retry_after {
                Some(ra) if config.respect_retry_after => ra,
                _ => config.delay_for_attempt(attempt - 1),
            };
            transport_retries = attempt;
            proof {
                crate::backoff::lemma_base_delay_sum_bounds(
                    config.initial_delay_ms,
                    config.multiplier_permille,
                    config.max_delay_ms,
                    attempt - 1,
                );
                crate::backoff::lemma_base_delay_bounds(
                    config.initial_delay_ms,
                    config.multiplier_permille,
                    config.max_delay_ms,
                    attempt - 1,
                );
            }
            if backoff_total_ms <= u64::MAX - delay {
                backoff_total_ms = backoff_total_ms + delay;
            } else {
                backoff_total_ms = u64::MAX;
            }
            crate::events::push_quiet(
                &mut events,
                Event::TransportRetry {
                    name: string_from(name),
                    attempt,
                    delay_ms: delay,
                    reason: string_from(last_reason.as_str()),
                },
            );
        }
        let outcome: Result<(LlmResponse, Vec<String>), PipelineError> = if request.stream {
            backend.complete_streaming(request)
        } else {
            match backend.complete(request) {
                Ok(resp) => Ok((resp, Vec::new())),
                Err(e) => Err(e),
            }
        };
        match outcome {
            Ok((resp, tokens)) => {
                return DispatchOutcome {
                    result: Ok(resp),
                    tokens,
                    transport_retries,
                    backoff_total_ms,
                    events,
                };
            }
            Err(e) => {
                if attempt < config.max_retries && is_retryable(&e, config) {
                    last_retry_after = match &e {
                        PipelineError::HttpError { status, body, retry_after_ms } => match
                            retry_after_ms {
                            Some(ra) => Some(*ra),
                            None => None,
                        },
                        _ => None,
                    };
                    last_reason = e.message();
                    attempt = attempt + 1;
                } else {
                    return DispatchOutcome {
                        result: Err(e),
                        tokens: Vec::new(),
                        transport_retries,
                        backoff_total_ms,
                        events,
                    };
                }
            }
        }
    }
}

/// The retry budget of a call: no retries without a configuration, and
/// never more than five.
pub open spec fn retry_budget(call: LlmCall) -> int {
    match call.retry {
        Some(rc) => if rc.max_retries <= 5 {
            rc.max_retries as int
        } else {
            5int
        },
        None => 0,
    }
}

impl LlmCall {
    /// One full invocation against a backend: render, dispatch with
    /// transport retry, parse, and re-ask the model while the retry
    /// predicate fails, within the bounded budget. With the cancellation
    /// flag already set, no model call is made at all; and in a
    /// streaming invocation that needed no retry, the emitted token
    /// chunks concatenate to exactly the raw response.
    #[verifier::loop_isolation(false)]
    #[verifier::rlimit(90)]
    pub fn invoke_with<B: Backend>(
        &self,
        backend: &mut B,
        vars: &PipelineContext,
        backoff: &BackoffConfig,
        cancelled: bool,
        input: &JsonValue,
    ) -> (r: InvokeOutcome)
        ensures
            cancelled ==> r.backend_calls == 0 && (r.result matches Err(e) && e is Cancelled),
            cancelled ==> r.events@.len() == 0,
            r.backend_calls <= 1 + retry_budget(*self),
            r.result matches Ok(out) ==> out.diagnostics matches Some(d) && d.transport_retries
                as int <= (1 + d.retry_attempts as int) * (backoff.max_retries as int),
            r.result matches Ok(out) ==> out.diagnostics matches Some(d) && d.strategy matches
                Some(tag) && tag@ == strategy_tag(self.output_strategy),
            r.result matches Ok(out) ==> out.diagnostics matches Some(d) && d.retry_attempts
                <= retry_budget(*self),
            self.streaming ==> (r.result matches Ok(out) ==> out.diagnostics matches Some(d) && (
            d.retry_attempts == 0 ==> concat_chunks(crate::events::token_chunks(r.events@))
                == out.raw_response@)),
    {
        let mut events: Vec<Event> = Vec::new();
        proof {
            assert(crate::events::token_chunks(events@) =~= Seq::<Seq<char>>::empty());
        }
        if cancelled {
            return InvokeOutcome {
                result: Err(PipelineError::Cancelled),
                events,
                backend_calls: 0,
            };
        }
        crate::events::push_quiet(
            &mut events,
            Event::PayloadStart { name: string_from(self.name.as_str()), kind: "llm-call" },
        );
        let input_str = Self::input_to_string(input);
        let prompt = Self::render_prompt(
            self.prompt_template.as_str(),
            input_str.as_str(),
            vars,
        );
        let system: Option<String> = match &self.system_template {
            Some(t) => Some(Self::render_system(t.as_str(), vars)),
            None => None,
        };
        // Initial call.
        let request = self.build_request(prompt.as_str(), &system, Vec::new(), self.streaming);
        let dispatch = with_backoff(backend, self.name.as_str(), &request, backoff);
        let mut backend_calls: u32 = 1;
        let mut total_transport_retries: u32 = dispatch.transport_retries;
        let mut total_backoff_ms: u64 = dispatch.backoff_total_ms;
        let ghost pre_append = events@;
        let ghost devts = dispatch.events@;
        crate::text::append_all_events(&mut events, dispatch.events);
        proof {
            crate::events::lemma_token_chunks_concat(pre_append, devts);
            assert(crate::events::token_chunks(events@) =~= Seq::<Seq<char>>::empty());
        }
        let mut output: PayloadOutput = match dispatch.result {
            Ok(resp) => {
                let ghost chunks = dispatch.tokens@.map_values(|t: String| t@);
                if self.streaming {
                    let nt = dispatch.tokens.len();
                    let mut ti: usize = 0;
                    while ti < nt
                        invariant
                            0 <= ti <= nt,
                            nt == dispatch.tokens@.len(),
                            chunks == dispatch.tokens@.map_values(|t: String| t@),
                            crate::events::token_chunks(events@) =~= chunks.subrange(
                                0,
                                ti as int,
                            ),
                        decreases nt - ti,
                    {
                        crate::events::push_token(
                            &mut events,
                            string_from(self.name.as_str()),
                            string_from(dispatch.tokens[ti].as_str()),
                        );
                        proof {
                            assert(crate::events::token_chunks(events@) =~= chunks.subrange(
                                0,
                                ti + 1,
                            ));
                        }
                        ti = ti + 1;
                    }
                    proof {
                        assert(chunks.subrange(0, nt as int) =~= chunks);
                    }
                }
                let ghost raw0 = resp.text@;
                let mut out = self.build_output(resp.text);
                match &mut out.diagnostics {
                    Some(d) => {
                        d.transport_retries = dispatch.transport_retries;
                        d.backoff_total_ms = dispatch.backoff_total_ms;
                    }
                    None => {}
                }
                proof {
                    if self.streaming {
                        assert(concat_chunks(crate::events::token_chunks(events@))
                            == out.raw_response@);
                    }
                }
                out
            }
            Err(e) => {
                crate::events::push_quiet(
                    &mut events,
                    Event::PayloadEnd { name: string_from(self.name.as_str()), ok: false },
                );
                return InvokeOutcome { result: Err(e), events, backend_calls };
            }
        };
        let ghost r0 = output.raw_response@;
        proof {
            assert(self.streaming ==> concat_chunks(crate::events::token_chunks(events@))
                == r0);
            assert(output.diagnostics matches Some(d) && d.retry_attempts == 0);
            assert(output.diagnostics matches Some(d) && d.transport_retries
                == total_transport_retries);
            assert(total_transport_retries <= backoff.max_retries);
            assert(output.diagnostics matches Some(d) && d.transport_retries as int <= (1
                + d.retry_attempts as int) * (backoff.max_retries as int));
        }
        // Semantic retry loop.
        match &self.retry {
            Some(retry_config) => {
                let mut reason_opt = self.check_retry_needed(&output, retry_config);
                if reason_opt.is_some() {
                    let mut messages: Vec<ChatMessage> = Vec::new();
                    messages.push(
                        ChatMessage { role: Role::User, content: string_from(prompt.as_str()) },
                    );
                    let mut cool_steps: u32 = 0;
                    let budget: u32 = if retry_config.max_retries <= 5 {
                        retry_config.max_retries
                    } else {
                        5
                    };
                    let mut attempt: u32 = 1;
                    while attempt <= budget
                        invariant
                            1 <= attempt <= budget + 1,
                            backend_calls == attempt,
                            budget == retry_budget(*self),
                            output.diagnostics matches Some(d) && d.strategy matches Some(tag)
                                && tag@ == strategy_tag(self.output_strategy),
                            output.diagnostics matches Some(d) && d.retry_attempts <= budget,
                            output.diagnostics matches Some(d) && d.retry_attempts == attempt
                                - 1,
                            output.diagnostics matches Some(d) && d.transport_retries
                                == total_transport_retries && d.backoff_total_ms
                                == total_backoff_ms,
                            output.diagnostics matches Some(d) && d.transport_retries as int <= (
                            1 + d.retry_attempts as int) * (backoff.max_retries as int),
                            self.streaming ==> concat_chunks(
                                crate::events::token_chunks(events@),
                            ) == r0,
                            output.diagnostics matches Some(d) && (d.retry_attempts == 0
                                ==> output.raw_response@ == r0),
                        decreases budget + 1 - attempt,
                    {
                        let reason = match &reason_opt {
                            Some(m) => string_from(m.as_str()),
                            None => String::new(),
                        };
                        crate::events::push_quiet(
                            &mut events,
                            Event::RetryStart {
                                name: string_from(self.name.as_str()),
                                attempt,
                                reason: string_from(reason.as_str()),
                            },
                        );
                        messages.push(
                            ChatMessage {
                                role: Role::Assistant,
                                content: string_from(output.raw_response.as_str()),
                            },
                        );
                        let mut correction = string_from(
                            "Your previous response was invalid: ",
                        );
                        vstd::string::StringExecFns::append(&mut correction, reason.as_str());
                        vstd::string::StringExecFns::append(
                            &mut correction,
                            ". Please try again with the correct format.",
                        );
                        messages.push(ChatMessage { role: Role::User, content: correction });
                        if retry_config.cool_down && cool_steps < u32::MAX {
                            cool_steps = cool_steps + 1;
                        }
                        let cooled = self.cooled_config(cool_steps);
                        let retry_request = LlmRequest {
                            model: string_from(self.model.as_str()),
                            system_prompt: match &system {
                                Some(s) => Some(string_from(s.as_str())),
                                None => None,
                            },
                            prompt: string_from(prompt.as_str()),
                            messages: clone_messages(&messages),
                            config: cooled,
                            stream: false,
                        };
                        let d2 = with_backoff(
                            backend,
                            self.name.as_str(),
                            &retry_request,
                            backoff,
                        );
                        backend_calls = backend_calls + 1;
                        let ghost pre2 = events@;
                        let ghost devts2 = d2.events@;
                        crate::text::append_all_events(&mut events, d2.events);
                        proof {
                            crate::events::lemma_token_chunks_concat(pre2, devts2);
                            assert(crate::events::token_chunks(events@)
                                =~= crate::events::token_chunks(pre2));
                        }
                        match d2.result {
                            Ok(resp) => {
                                output = self.build_output(resp.text);
                                total_transport_retries = if total_transport_retries
                                    <= u32::MAX - d2.transport_retries {
                                    total_transport_retries + d2.transport_retries
                                } else {
                                    u32::MAX
                                };
                                total_backoff_ms = if total_backoff_ms <= u64::MAX
                                    - d2.backoff_total_ms {
                                    total_backoff_ms + d2.backoff_total_ms
                                } else {
                                    u64::MAX
                                };
                                proof {
                                    assert((attempt as int) * (backoff.max_retries as int) + (
                                    backoff.max_retries as int) == (1 + attempt as int) * (
                                    backoff.max_retries as int)) by (nonlinear_arith);
                                }
                                match &mut output.diagnostics {
                                    Some(d) => {
                                        d.retry_attempts = attempt;
                                        d.transport_retries = total_transport_retries;
                                        d.backoff_total_ms = total_backoff_ms;
                                    }
                                    None => {}
                                }
                            }
                            Err(e) => {
                                crate::events::push_quiet(
                                    &mut events,
                                    Event::RetryEnd {
                                        name: string_from(self.name.as_str()),
                                        attempts: attempt,
                                        success: false,
                                    },
                                );
                                crate::events::push_quiet(
                                    &mut events,
                                    Event::PayloadEnd {
                                        name: string_from(self.name.as_str()),
                                        ok: false,
                                    },
                                );
                                return InvokeOutcome {
                                    result: Err(e),
                                    events,
                                    backend_calls,
                                };
                            }
                        }
                        reason_opt = self.check_retry_needed(&output, retry_config);
                        if reason_opt.is_none() {
                            crate::events::push_quiet(
                                &mut events,
                                Event::RetryEnd {
                                    name: string_from(self.name.as_str()),
                                    attempts: attempt,
                                    success: true,
                                },
                            );
                            attempt = attempt + 1;
                            break;
                        }
                        if attempt == budget {
                            crate::events::push_quiet(
                                &mut events,
                                Event::RetryEnd {
                                    name: string_from(self.name.as_str()),
                                    attempts: attempt,
                                    success: false,
                                },
                            );
                        }
                        attempt = attempt + 1;
                    }
                }
            }
            None => {}
        }
        crate::events::push_quiet(
            &mut events,
            Event::PayloadEnd { name: string_from(self.name.as_str()), ok: true },
        );
        InvokeOutcome { result: Ok(output), events, backend_calls }
    }

    /// The configuration with the temperature cooled by two tenths per
    /// retry step, floored at zero.
    pub fn cooled_config(&self, cool_steps: u32) -> (r: LlmConfig)
        ensures
            r.temperature_milli == if self.config.temperature_milli >= cool_steps * 200 {
                self.config.temperature_milli - cool_steps * 200
            } else {
                0int
            },
            r.max_tokens == self.config.max_tokens,
            r.thinking == self.config.thinking,
            r.json_mode == self.config.json_mode,
    {
        let mut c = self.config.duplicate();
        let drop_milli: u64 = (cool_steps as u64) * 200;
        c.temperature_milli = if (c.temperature_milli as u64) >= drop_milli {
            (c.temperature_milli as u64 - drop_milli) as u32
        } else {
            0
        };
        c
    }
}

/// A field-for-field copy of a message list.
#[verifier::loop_isolation(false)]
fn clone_messages(messages: &Vec<ChatMessage>) -> (r: Vec<ChatMessage>)
    ensures
        r@.len() == messages@.len(),
        forall|j: int| 0 <= j < messages@.len() ==> (#[trigger] r@[j]).role == messages@[j].role
            && r@[j].content@ == messages@[j].content@,
{
    let n = messages.len();
    let mut out: Vec<ChatMessage> = Vec::new();
    let mut i: usize = 0;
    while i < n
        invariant
            0 <= i <= n,
            n == messages@.len(),
            out@.len() == i as int,
            forall|j: int| 0 <= j < i ==> (#[trigger] out@[j]).role == messages@[j].role
                && out@[j].content@ == messages@[j].content@,
        decreases n - i,
    {
        out.push(
            ChatMessage {
                role: messages[i].role,
                content: string_from(messages[i].content.as_str()),
            },
        );
        i = i + 1;
    }
    out
}

} // verus!
