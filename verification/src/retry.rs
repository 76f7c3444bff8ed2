//! Semantic retry configuration: when the parsed output fails its
//! strategy or its validator, the model is re-asked with a correction
//! turn, up to a small bounded number of attempts.

use vstd::prelude::*;
use crate::jsonval::{jv_lookup, JsonValue, JsonV};

verus! {

/// A semantic validation rule run over the parsed value after the
/// output strategy succeeds.
#[derive(Debug)]
pub enum ValidatorRule {
    /// The value must be an object holding every listed key with a
    /// non-null value.
    RequiredKeys(Vec<String>),
}

/// Configuration for model-in-the-loop retry on parse failure.
#[derive(Debug)]
pub struct RetryConfig {
    /// Maximum retry attempts, not counting the initial call; one to
    /// five.
    pub max_retries: u32,
    /// An optional validation rule applied after parsing succeeds.
    pub validator: Option<ValidatorRule>,
    /// Lower the temperature on each retry.
    pub cool_down: bool,
}

impl RetryConfig {
    /// Retry up to `max_retries` times on parse failure; higher counts
    /// are clamped to five.
    pub fn new(max_retries: u32) -> (r: RetryConfig)
        ensures
            r.max_retries == if max_retries <= 5 {
                max_retries as int
            } else {
                5int
            },
            r.max_retries <= 5,
            r.validator is None,
            r.cool_down,
    {
        RetryConfig {
            max_retries: if max_retries <= 5 {
                max_retries
            } else {
                5
            },
            validator: None,
            cool_down: true,
        }
    }

    /// Retry with an additional semantic validation rule.
    pub fn with_validator(self, rule: ValidatorRule) -> (r: RetryConfig)
        ensures
            r.max_retries == self.max_retries,
            r.validator == Some(rule),
            r.cool_down == self.cool_down,
    {
        RetryConfig { validator: Some(rule), ..self }
    }

    /// Shorthand: require that specific keys exist and are non-null.
    pub fn requiring_keys(self, keys: &Vec<String>) -> (r: RetryConfig)
        ensures
            r.max_retries == self.max_retries,
            r.cool_down == self.cool_down,
            r.validator matches Some(v) && v matches ValidatorRule::RequiredKeys(ks)
                && ks@.map_values(|x: String| x@) == keys@.map_values(|x: String| x@),
    {
        let n = keys.len();
        let mut copy: Vec<String> = Vec::new();
        let mut i: usize = 0;
        while i < n
            invariant
                0 <= i <= n,
                n == keys@.len(),
                copy@.len() == i as int,
                forall|j: int| 0 <= j < i ==> (#[trigger] copy@[j])@ == keys@[j]@,
            decreases n - i,
        {
            copy.push(crate::output_parser::error::string_from(keys[i].as_str()));
            i = i + 1;
        }
        proof {
            assert(copy@.map_values(|x: String| x@) =~= keys@.map_values(|x: String| x@));
        }
        RetryConfig { validator: Some(ValidatorRule::RequiredKeys(copy)), ..self }
    }

    /// Disable temperature cool-down.
    pub fn no_cool_down(self) -> (r: RetryConfig)
        ensures
            r.max_retries == self.max_retries,
            r.validator == self.validator,
            !r.cool_down,
    {
        RetryConfig { cool_down: false, ..self }
    }
}

/// Whether a value passes the required-keys rule: it is an object, every
/// key is present, and none is null.
pub open spec fn keys_ok(v: JsonV, keys: Seq<Seq<char>>, k: int) -> bool
    decreases keys.len() - k
        when 0 <= k
{
    if k >= keys.len() {
        true
    } else {
        match v {
            JsonV::Obj(fields) => match jv_lookup(fields, keys[k]) {
                Some(found) => !(found is Null) && keys_ok(v, keys, k + 1),
                None => false,
            },
            _ => false,
        }
    }
}

/// The message for the first required key that is missing or null, in
/// list order, if any.
pub open spec fn offense_msg(v: JsonV, keys: Seq<Seq<char>>, k: int) -> Option<Seq<char>>
    decreases keys.len() - k
        when 0 <= k
{
    if k >= keys.len() {
        None
    } else {
        match v {
            JsonV::Obj(fields) => match jv_lookup(fields, keys[k]) {
                Some(found) => if found is Null {
                    Some("required key '"@ + keys[k] + "' is null"@)
                } else {
                    offense_msg(v, keys, k + 1)
                },
                None => Some("missing required key: '"@ + keys[k] + "'"@),
            },
            _ => Some("missing required key: '"@ + keys[k] + "'"@),
        }
    }
}

/// Run a validation rule over the parsed value; the error names the
/// first offending key, for the model's correction turn.
#[verifier::loop_isolation(false)]
pub fn run_validator(rule: &ValidatorRule, value: &JsonValue) -> (r: Result<(), String>)
    ensures
        match rule {
            ValidatorRule::RequiredKeys(keys) => r is Ok <==> keys_ok(
                value@,
                keys@.map_values(|x: String| x@),
                0,
            ),
        },
        match (rule, r) {
            (ValidatorRule::RequiredKeys(keys), Err(m)) => offense_msg(
                value@,
                keys@.map_values(|x: String| x@),
                0,
            ) == Some(m@),
            _ => true,
        },
{
    match rule {
        ValidatorRule::RequiredKeys(keys) => {
            let n = keys.len();
            let ghost kv = keys@.map_values(|x: String| x@);
            let mut i: usize = 0;
            while i < n
                invariant
                    0 <= i <= n,
                    n == keys@.len(),
                    kv == keys@.map_values(|x: String| x@),
                    keys_ok(value@, kv, 0) == keys_ok(value@, kv, i as int),
                    offense_msg(value@, kv, 0) == offense_msg(value@, kv, i as int),
                decreases n - i,
            {
                match value.get(keys[i].as_str()) {
                    Some(found) => {
                        let is_null = match found {
                            JsonValue::Null => true,
                            _ => false,
                        };
                        if is_null {
                            let mut msg = crate::output_parser::error::string_from(
                                "required key '",
                            );
                            vstd::string::StringExecFns::append(&mut msg, keys[i].as_str());
                            vstd::string::StringExecFns::append(&mut msg, "' is null");
                            proof {
                                assert(msg@ == "required key '"@ + kv[i as int]
                                    + "' is null"@);
                            }
                            return Err(msg);
                        }
                    }
                    None => {
                        let mut msg = crate::output_parser::error::string_from(
                            "missing required key: '",
                        );
                        vstd::string::StringExecFns::append(&mut msg, keys[i].as_str());
                        vstd::string::StringExecFns::append(&mut msg, "'");
                        proof {
                            assert(msg@ == "missing required key: '"@ + kv[i as int] + "'"@);
                        }
                        return Err(msg);
                    }
                }
                i = i + 1;
            }
            Ok(())
        }
    }
}

} // verus!
