//! Sequential composition of payloads: each step's output value becomes
//! the next step's input. A chain is itself a step, so chains nest.

use vstd::prelude::*;
use crate::backend::Backend;
use crate::backoff::BackoffConfig;
use crate::error::PipelineError;
use crate::events::Event;
use crate::jsonval::JsonValue;
use crate::llm_call::{InvokeOutcome, LlmCall};
use crate::payload::PayloadOutput;
use crate::types::PipelineContext;

verus! {

/// One step of a chain: an LLM call, or a nested chain.
#[derive(Debug)]
pub enum ChainStep {
    /// A single LLM call.
    Call(LlmCall),
    /// A nested chain.
    Nested(Chain),
}

/// A sequential chain of payloads, executed in order with each output's
/// value piped into the next payload.
#[derive(Debug)]
pub struct Chain {
    /// Instance name, for events and logs.
    pub name: String,
    /// The steps, in execution order.
    pub payloads: Vec<ChainStep>,
}

/// The state a chain execution threads from step to step: the outputs so
/// far and the input the next step will receive.
pub struct ChainState {
    /// Outputs of the completed steps, in order.
    pub outputs: Vec<PayloadOutput>,
    /// The structured input for the next step.
    pub current: JsonValue,
}

/// Begin a chain execution: the first step receives the chain's input.
pub fn chain_start(input: JsonValue) -> (r: ChainState)
    ensures
        r.outputs@.len() == 0,
        r.current@ == input@,
{
    ChainState { outputs: Vec::new(), current: input }
}

/// Absorb one step's output: it is recorded, and its structured value
/// becomes — exactly — the input to the next step.
pub fn chain_absorb(state: ChainState, output: PayloadOutput) -> (r: ChainState)
    ensures
        r.outputs@.len() == state.outputs@.len() + 1,
        r.outputs@.subrange(0, state.outputs@.len() as int) == state.outputs@,
        r.outputs@.last() == output,
        r.current@ == output.value@,
{
    let next = output.value.deep_clone();
    let mut outputs = state.outputs;
    let ghost pre = outputs@;
    outputs.push(output);
    proof {
        assert(outputs@.subrange(0, pre.len() as int) =~= pre);
    }
    ChainState { outputs, current: next }
}

impl Chain {
    /// A new empty chain.
    pub fn new(name: &str) -> (r: Chain)
        ensures
            r.name@ == name@,
            r.payloads@.len() == 0,
    {
        Chain { name: crate::output_parser::error::string_from(name), payloads: Vec::new() }
    }

    /// Add a step to the end of the chain (builder style).
    pub fn push(self, payload: ChainStep) -> (r: Chain)
        ensures
            r.name == self.name,
            r.payloads@.len() == self.payloads@.len() + 1,
    {
        let mut c = self;
        c.payloads.push(payload);
        c
    }

    /// Add a step to the end of the chain (mutation style).
    pub fn add(&mut self, payload: ChainStep)
        ensures
            final(self).name == old(self).name,
            final(self).payloads@.len() == old(self).payloads@.len() + 1,
    {
        self.payloads.push(payload);
    }

    /// Number of steps in the chain.
    pub fn len(&self) -> (r: usize)
        ensures
            r == self.payloads@.len(),
    {
        self.payloads.len()
    }

    /// Whether the chain is empty.
    pub fn is_empty(&self) -> (r: bool)
        ensures
            r == (self.payloads@.len() == 0),
    {
        self.payloads.len() == 0
    }

    /// Execute all steps in order, returning every intermediate output;
    /// an empty chain is a configuration error, and a set cancellation
    /// flag stops the run before any model call.
    #[verifier::loop_isolation(false)]
    pub fn execute_all<B: Backend>(
        &self,
        backend: &mut B,
        vars: &PipelineContext,
        backoff: &BackoffConfig,
        cancelled: bool,
        input: JsonValue,
    ) -> (r: (Result<Vec<PayloadOutput>, PipelineError>, Vec<Event>))
        ensures
            self.payloads@.len() == 0 ==> (r.0 matches Err(e) && e is InvalidConfig),
            cancelled && self.payloads@.len() > 0 ==> (r.0 matches Err(e) && e is Cancelled),
            (r.0 matches Ok(outs) ==> outs@.len() == self.payloads@.len()),
        decreases *self, 1int,
    {
        let mut events: Vec<Event> = Vec::new();
        if self.payloads.len() == 0 {
            return (
                Err(
                    PipelineError::InvalidConfig(
                        crate::output_parser::error::string_from("Chain has no payloads"),
                    ),
                ),
                events,
            );
        }
        let mut state = chain_start(input);
        let n = self.payloads.len();
        let mut i: usize = 0;
        while i < n
            invariant
                0 <= i <= n,
                n == self.payloads@.len(),
                state.outputs@.len() == i as int,
                cancelled ==> i == 0,
            decreases n - i,
        {
            if cancelled {
                return (Err(PipelineError::Cancelled), events);
            }
            proof {
                assert(decreases_to!(*self => (*self).payloads));
                assert(decreases_to!((*self).payloads => (*self).payloads@));
                assert(decreases_to!((*self).payloads@ => (*self).payloads@[i as int]));
            }
            let step_input = state.current.deep_clone();
            let outcome: InvokeOutcome = match &self.payloads[i] {
                ChainStep::Call(call) => call.invoke_with(
                    backend,
                    vars,
                    backoff,
                    cancelled,
                    &step_input,
                ),
                ChainStep::Nested(inner) => {
                    proof {
                        assert(decreases_to!((*self).payloads@[i as int] => (*self).payloads@[
                        i as int]->Nested_0));
                    }
                    let (res, ev) = inner.execute_all(
                        backend,
                        vars,
                        backoff,
                        cancelled,
                        step_input,
                    );
                    match res {
                        Ok(mut outs) => {
                            let last = if outs.len() > 0 {
                                match outs.pop() {
                                    Some(o) => o,
                                    None => PayloadOutput {
                                        value: JsonValue::Null,
                                        raw_response: String::new(),
                                        thinking: None,
                                        model: None,
                                        diagnostics: None,
                                    },
                                }
                            } else {
                                PayloadOutput {
                                    value: JsonValue::Null,
                                    raw_response: String::new(),
                                    thinking: None,
                                    model: None,
                                    diagnostics: None,
                                }
                            };
                            InvokeOutcome { result: Ok(last), events: ev, backend_calls: 0 }
                        }
                        Err(e) => InvokeOutcome { result: Err(e), events: ev, backend_calls: 0 },
                    }
                }
            };
            crate::text::append_all_events(&mut events, outcome.events);
            match outcome.result {
                Ok(output) => {
                    state = chain_absorb(state, output);
                }
                Err(e) => {
                    return (Err(e), events);
                }
            }
            i = i + 1;
        }
        (Ok(state.outputs), events)
    }

    /// Execute all steps and return only the final output.
    pub fn execute<B: Backend>(
        &self,
        backend: &mut B,
        vars: &PipelineContext,
        backoff: &BackoffConfig,
        cancelled: bool,
        input: JsonValue,
    ) -> (r: (Result<PayloadOutput, PipelineError>, Vec<Event>))
        ensures
            self.payloads@.len() == 0 ==> (r.0 matches Err(e) && e is InvalidConfig),
        decreases *self, 2int,
    {
        let (res, events) = self.execute_all(backend, vars, backoff, cancelled, input);
        match res {
            Ok(mut outs) => {
                if outs.len() > 0 {
                    match outs.pop() {
                        Some(o) => (Ok(o), events),
                        None => (
                            (
                                Err(
                                    PipelineError::Other(
                                        crate::output_parser::error::string_from(
                                            "Chain produced no outputs",
                                        ),
                                    ),
                                ),
                                events,
                            )
                        ),
                    }
                } else {
                    (
                        Err(
                            PipelineError::Other(
                                crate::output_parser::error::string_from(
                                    "Chain produced no outputs",
                                ),
                            ),
                        ),
                        events,
                    )
                }
            }
            Err(e) => (Err(e), events),
        }
    }
}

} // verus!
