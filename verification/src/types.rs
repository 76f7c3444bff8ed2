//! The data types of the staged pipeline surface: inputs, per-stage
//! outputs, results, progress updates, and template context.

use vstd::prelude::*;

verus! {

/// Input to a pipeline execution.
#[derive(Debug)]
pub struct PipelineInput {
    /// The main input text.
    pub idea: String,
    /// Number of variations to generate, for ideation stages.
    pub num_concepts: u32,
}

impl PipelineInput {
    /// An input with the default of three concepts.
    pub fn new(idea: &str) -> (r: PipelineInput)
        ensures
            r.idea@ == idea@,
            r.num_concepts == 3,
    {
        PipelineInput {
            idea: crate::output_parser::error::string_from(idea),
            num_concepts: 3,
        }
    }

    /// The same input with another concept count.
    pub fn with_concepts(self, num: u32) -> (r: PipelineInput)
        ensures
            r.idea == self.idea,
            r.num_concepts == num,
    {
        PipelineInput { num_concepts: num, ..self }
    }
}

/// Output from a single stage.
#[derive(Debug)]
pub struct StageOutput<T> {
    /// The structured output parsed from the LLM response.
    pub output: T,
    /// The thinking content, when extended thinking was enabled.
    pub thinking: Option<String>,
    /// Raw response text from the LLM.
    pub raw_response: String,
}

/// Complete pipeline execution result.
#[derive(Debug)]
pub struct PipelineResult<T> {
    /// Final output from the last executed stage.
    pub final_output: T,
    /// Results from each executed stage in order.
    pub stage_results: Vec<StageOutput<T>>,
    /// Which stages were enabled during execution.
    pub stages_enabled: Vec<bool>,
}

/// Progress update emitted during pipeline execution.
#[derive(Debug)]
pub struct PipelineProgress {
    /// Current stage index, zero-based.
    pub stage_index: usize,
    /// Total number of stages in the pipeline.
    pub total_stages: usize,
    /// Name of the current stage.
    pub stage_name: String,
    /// Current step within the stage, if known.
    pub current_step: Option<u32>,
    /// Total steps in the stage, if known.
    pub total_steps: Option<u32>,
}

/// Context injected into prompt templates via `{key}` placeholders:
/// name-value pairs in insertion order.
#[derive(Debug)]
pub struct PipelineContext {
    /// The variables, in insertion order.
    pub data: Vec<(String, String)>,
}

impl PipelineContext {
    /// An empty context.
    pub fn new() -> (r: PipelineContext)
        ensures
            r.data@.len() == 0,
    {
        PipelineContext { data: Vec::new() }
    }

    /// The context with one more variable appended.
    pub fn insert(self, key: &str, value: &str) -> (r: PipelineContext)
        ensures
            r.data@.len() == self.data@.len() + 1,
            r.data@.subrange(0, self.data@.len() as int) == self.data@,
            r.data@.last().0@ == key@,
            r.data@.last().1@ == value@,
    {
        let mut data = self.data;
        data.push(
            (
                crate::output_parser::error::string_from(key),
                crate::output_parser::error::string_from(value),
            ),
        );
        proof {
            assert(data@.subrange(0, data@.len() - 1) =~= old_data_view(data@));
        }
        PipelineContext { data }
    }

    /// The value of the first variable with the given name, if any.
    #[verifier::loop_isolation(false)]
    pub fn get(&self, key: &str) -> (r: Option<&str>)
        ensures
            match r {
                Some(v) => exists|j: int|
                    0 <= j < self.data@.len() && (#[trigger] self.data@[j]).0@ == key@
                        && self.data@[j].1@ == v@,
                None => forall|j: int|
                    0 <= j < self.data@.len() ==> (#[trigger] self.data@[j]).0@ != key@,
            },
    {
        let n = self.data.len();
        let mut i: usize = 0;
        while i < n
            invariant
                0 <= i <= n,
                n == self.data@.len(),
                forall|j: int| 0 <= j < i ==> (#[trigger] self.data@[j]).0@ != key@,
            decreases n - i,
        {
            if crate::output_parser::listparse::str_eq_key(self.data[i].0.as_str(), key) {
                return Some(self.data[i].1.as_str());
            }
            i = i + 1;
        }
        None
    }
}

/// The view of a pushed vector without its last element.
pub open spec fn old_data_view(d: Seq<(String, String)>) -> Seq<(String, String)> {
    d.subrange(0, d.len() - 1)
}

} // verus!
