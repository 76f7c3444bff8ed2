//! Normalized request and response types, the backend interface, and the
//! decisions around transport retry.

use vstd::prelude::*;
use crate::client::{config_eqv, LlmConfig};
use crate::jsonval::JsonValue;
use crate::error::PipelineError;
use crate::backoff::BackoffConfig;

verus! {

/// The role of a chat message author.
#[derive(Debug, Clone, Copy, PartialEq, Eq, Structural)]
pub enum Role {
    /// System instructions.
    System,
    /// User input.
    User,
    /// Assistant (model) response.
    Assistant,
}

/// A single message in a chat conversation.
#[derive(Debug)]
pub struct ChatMessage {
    /// The author role.
    pub role: Role,
    /// The message content.
    pub content: String,
}

/// A normalized, provider-agnostic LLM request.
#[derive(Debug)]
pub struct LlmRequest {
    /// Model identifier.
    pub model: String,
    /// A chat-style call when set and non-empty; a prompt-only call
    /// otherwise.
    pub system_prompt: Option<String>,
    /// The user prompt text.
    pub prompt: String,
    /// Prior conversation history, for retry; empty on initial calls.
    pub messages: Vec<ChatMessage>,
    /// Request configuration.
    pub config: LlmConfig,
    /// Whether to use the streaming endpoint.
    pub stream: bool,
}

/// A normalized LLM response.
#[derive(Debug)]
pub struct LlmResponse {
    /// The generated text content.
    pub text: String,
    /// HTTP status code.
    pub status: u16,
    /// Provider-specific metadata (token counts, timing, model info).
    pub metadata: Option<JsonValue>,
}

/// The interface to an LLM provider. A backend turns a normalized
/// request into a provider call and hands back the normalized response;
/// implementors outside this crate do the actual transport.
pub trait Backend {
    /// Execute a non-streaming LLM call.
    fn complete(&mut self, request: &LlmRequest) -> Result<LlmResponse, PipelineError>;

    /// Execute a streaming LLM call, returning the response together
    /// with the tokens in arrival order; the response text is their
    /// concatenation.
    fn complete_streaming(&mut self, request: &LlmRequest) -> (r: Result<
        (LlmResponse, Vec<String>),
        PipelineError,
    >)
        ensures
            r matches Ok(p) ==> p.0.text@ == concat_chunks(p.1@.map_values(|t: String| t@)),
    ;

    /// A short name for logging and diagnostics.
    fn name(&self) -> &'static str;
}

/// The concatenation of a sequence of token chunks.
pub open spec fn concat_chunks(chunks: Seq<Seq<char>>) -> Seq<char>
    decreases chunks.len(),
{
    if chunks.len() == 0 {
        Seq::empty()
    } else {
        concat_chunks(chunks.drop_last()) + chunks.last()
    }
}

/// Whether an error should be retried under the given backoff policy:
/// an HTTP error whose status is in the retryable set, or a transport
/// failure.
#[verifier::loop_isolation(false)]
pub fn is_retryable(error: &PipelineError, config: &BackoffConfig) -> (r: bool)
    ensures
        r == is_retryable_spec(*error, config.retryable_statuses@),
{
    match error {
        PipelineError::HttpError { status, body, retry_after_ms } => {
            let n = config.retryable_statuses.len();
            let mut i: usize = 0;
            while i < n
                invariant
                    0 <= i <= n,
                    n == config.retryable_statuses@.len(),
                    forall|j: int| 0 <= j < i ==> config.retryable_statuses@[j] != *status,
                decreases n - i,
            {
                if config.retryable_statuses[i] == *status {
                    proof {
                        assert(config.retryable_statuses@[i as int] == *status);
                        assert(config.retryable_statuses@.contains(*status));
                    }
                    return true;
                }
                i = i + 1;
            }
            proof {
                if config.retryable_statuses@.contains(*status) {
                    let j = choose|j: int|
                        0 <= j < n && config.retryable_statuses@[j] == *status;
                }
            }
            false
        }
        PipelineError::Request(_) => true,
        _ => false,
    }
}

/// The retry decision as a predicate over the error and the set.
pub open spec fn is_retryable_spec(error: PipelineError, retryable: Seq<u16>) -> bool {
    match error {
        PipelineError::HttpError { status, .. } => retryable.contains(status),
        PipelineError::Request(_) => true,
        _ => false,
    }
}

/// A test backend that returns canned responses in order, cycling back
/// to the beginning when they are exhausted; streaming emits the whole
/// response as a single token.
#[derive(Debug)]
pub struct MockBackend {
    /// The canned responses, returned in order.
    pub responses: Vec<String>,
    /// The position of the next response.
    pub index: usize,
}

impl MockBackend {
    /// A mock backend with the given canned responses; at least one is
    /// required.
    pub fn new(responses: Vec<String>) -> (r: MockBackend)
        requires
            responses@.len() > 0,
        ensures
            r.responses == responses,
            r.index == 0,
    {
        MockBackend { responses, index: 0 }
    }

    /// A mock that always returns the same response.
    pub fn fixed(response: &str) -> (r: MockBackend)
        ensures
            r.responses@.len() == 1,
            r.responses@[0]@ == response@,
            r.index == 0,
    {
        let mut responses: Vec<String> = Vec::new();
        responses.push(crate::output_parser::error::string_from(response));
        MockBackend { responses, index: 0 }
    }

    /// The next canned response, advancing the cursor cyclically.
    pub fn next_response(&mut self) -> (r: String)
        requires
            old(self).responses@.len() > 0,
        ensures
            final(self).responses == old(self).responses,
            r@ == old(self).responses@[(
            old(self).index as int % old(self).responses@.len() as int
            )]@,
            final(self).index == old(self).index as int % old(self).responses@.len() as int + 1,
    {
        let idx = self.index % self.responses.len();
        self.index = idx + 1;
        crate::output_parser::error::string_from(self.responses[idx].as_str())
    }
}

impl Backend for MockBackend {
    /// The next canned response, cycling; status 200, no metadata.
    fn complete(&mut self, request: &LlmRequest) -> (r: Result<LlmResponse, PipelineError>)
        ensures
            old(self).responses@.len() == 0 ==> r is Err && *final(self) == *old(self),
            old(self).responses@.len() > 0 ==> (r matches Ok(resp) && resp.status == 200
                && resp.metadata is None && resp.text@ == old(self).responses@[(
            old(self).index as int % old(self).responses@.len() as int)]@
                && final(self).responses == old(self).responses
                && final(self).index == old(self).index as int % old(
                self,
            ).responses@.len() as int + 1),
    {
        if self.responses.len() == 0 {
            return Err(
                PipelineError::Other(
                    crate::output_parser::error::string_from("mock backend has no responses"),
                ),
            );
        }
        let text = self.next_response();
        Ok(LlmResponse { text, status: 200, metadata: None })
    }

    /// The next canned response, emitted whole as a single token.
    fn complete_streaming(&mut self, request: &LlmRequest) -> (r: Result<
        (LlmResponse, Vec<String>),
        PipelineError,
    >)
        ensures
            old(self).responses@.len() == 0 ==> r is Err && *final(self) == *old(self),
            old(self).responses@.len() > 0 ==> (r matches Ok(p) && p.0.status == 200
                && p.0.metadata is None && p.0.text@ == old(self).responses@[(
            old(self).index as int % old(self).responses@.len() as int)]@ && p.1@.len() == 1
                && p.1@[0]@ == p.0.text@ && final(self).responses == old(self).responses
                && final(self).index == old(self).index as int % old(
                self,
            ).responses@.len() as int + 1),
    {
        if self.responses.len() == 0 {
            return Err(
                PipelineError::Other(
                    crate::output_parser::error::string_from("mock backend has no responses"),
                ),
            );
        }
        let text = self.next_response();
        let copy = crate::output_parser::error::string_from(text.as_str());
        let mut tokens: Vec<String> = Vec::new();
        tokens.push(copy);
        proof {
            let cs = tokens@.map_values(|t: String| t@);
            assert(cs.len() == 1);
            assert(cs[0] == tokens@[0]@);
            assert(cs.last() == text@);
            assert(cs.drop_last() =~= Seq::<Seq<char>>::empty());
            assert(concat_chunks(Seq::<Seq<char>>::empty()) == Seq::<char>::empty());
            assert(concat_chunks(cs) == concat_chunks(cs.drop_last()) + cs.last());
            assert(concat_chunks(cs) =~= text@);
        }
        Ok((LlmResponse { text, status: 200, metadata: None }, tokens))
    }

    fn name(&self) -> &'static str {
        "mock"
    }
}

/// A scripted test backend: a fixed sequence of HTTP failures, then a
/// success, as a transport-retry test double.
#[derive(Debug)]
pub struct ScriptedBackend {
    /// Status codes to fail with, consumed front to back.
    pub failures: Vec<u16>,
    /// How many failures have been consumed.
    pub step: usize,
    /// The text returned once the failures are exhausted.
    pub then_text: String,
}

impl ScriptedBackend {
    /// A backend that fails with each status in turn, then succeeds.
    pub fn new(failures: Vec<u16>, then_text: &str) -> (r: ScriptedBackend)
        ensures
            r.failures == failures,
            r.step == 0,
            r.then_text@ == then_text@,
    {
        ScriptedBackend {
            failures,
            step: 0,
            then_text: crate::output_parser::error::string_from(then_text),
        }
    }
}

impl Backend for ScriptedBackend {
    /// The next scripted failure, or the configured success once the
    /// failures are spent.
    fn complete(&mut self, request: &LlmRequest) -> (r: Result<LlmResponse, PipelineError>)
        ensures
            old(self).step < old(self).failures@.len() ==> (r matches Err(e) && (e matches
                PipelineError::HttpError { status, body, retry_after_ms } && status == old(
                self,
            ).failures@[old(self).step as int] && retry_after_ms is None)
                && final(self).step == old(self).step + 1
                && final(self).failures == old(self).failures),
            old(self).step >= old(self).failures@.len() ==> (r matches Ok(resp) && resp.status
                == 200 && resp.metadata is None && resp.text@ == old(self).then_text@
                && *final(self) == *old(self)),
    {
        if self.step < self.failures.len() {
            let status = self.failures[self.step];
            self.step = self.step + 1;
            return Err(
                PipelineError::HttpError {
                    status,
                    body: crate::output_parser::error::string_from("scripted failure"),
                    retry_after_ms: None,
                },
            );
        }
        Ok(
            LlmResponse {
                text: crate::output_parser::error::string_from(self.then_text.as_str()),
                status: 200,
                metadata: None,
            },
        )
    }

    fn complete_streaming(&mut self, request: &LlmRequest) -> (r: Result<
        (LlmResponse, Vec<String>),
        PipelineError,
    >) {
        match self.complete(request) {
            Ok(resp) => {
                let copy = crate::output_parser::error::string_from(resp.text.as_str());
                let mut tokens: Vec<String> = Vec::new();
                tokens.push(copy);
                proof {
                    let cs = tokens@.map_values(|t: String| t@);
                    assert(cs.len() == 1);
                    assert(cs.last() == resp.text@);
                    assert(cs.drop_last() =~= Seq::<Seq<char>>::empty());
                    assert(concat_chunks(Seq::<Seq<char>>::empty()) == Seq::<char>::empty());
                    assert(concat_chunks(cs) == concat_chunks(cs.drop_last()) + cs.last());
                    assert(concat_chunks(cs) =~= resp.text@);
                }
                Ok((resp, tokens))
            }
            Err(e) => Err(e),
        }
    }

    fn name(&self) -> &'static str {
        "scripted"
    }
}

} // verus!
