//! The two provider translations: the generate/chat provider with its
//! two endpoints and NDJSON streaming, and the chat-completions provider
//! with server-sent events. Here live the pure parts — request bodies,
//! endpoint choice, URL normalization, metadata extraction; the HTTP
//! transport around them is the host program's.

use vstd::prelude::*;
use crate::backend::{LlmRequest, Role};
use crate::jsonval::{jv_lookup, JsonValue, JsonV};
use crate::prompt::dec_rep;
use crate::text::{chars_of, match_at, slice_range, string_of};
use crate::output_parser::error::string_from;

verus! {

/// A temperature in thousandths as a decimal literal: `700` prints as
/// `0.7`, `2000` as `2`.
pub open spec fn milli_lit(m: u32) -> Seq<char> {
    let ip = dec_rep(m as int / 1000);
    let frac = m as int % 1000;
    if frac == 0 {
        ip
    } else if frac % 100 == 0 {
        ip + seq!['.'] + dec_rep(frac / 100)
    } else if frac % 10 == 0 {
        ip + seq!['.'] + pad2(frac / 10)
    } else {
        ip + seq!['.'] + pad3(frac)
    }
}

/// Two digits with a leading zero kept.
pub open spec fn pad2(n: int) -> Seq<char> {
    dec_rep(n / 10) + dec_rep(n % 10)
}

/// Three digits with leading zeros kept.
pub open spec fn pad3(n: int) -> Seq<char> {
    dec_rep(n / 100) + pad2(n % 100)
}

/// The runtime form of [`milli_lit`].
#[verifier::rlimit(60)]
pub fn milli_lit_exec(m: u32) -> (r: Vec<char>)
    ensures
        r@ == milli_lit(m),
{
    let ip = crate::prompt::u32_dec(m / 1000);
    let frac = m % 1000;
    if frac == 0 {
        ip
    } else {
        let mut out = ip;
        out.push('.');
        if frac % 100 == 0 {
            let d = crate::prompt::u32_dec(frac / 100);
            crate::text::append_all(&mut out, &d);
        } else if frac % 10 == 0 {
            let h = frac / 10;
            let d1 = crate::prompt::u32_dec(h / 10);
            crate::text::append_all(&mut out, &d1);
            let d2 = crate::prompt::u32_dec(h % 10);
            crate::text::append_all(&mut out, &d2);
        } else {
            let d1 = crate::prompt::u32_dec(frac / 100);
            crate::text::append_all(&mut out, &d1);
            let d2 = crate::prompt::u32_dec((frac % 100) / 10);
            crate::text::append_all(&mut out, &d2);
            let d3 = crate::prompt::u32_dec(frac % 10);
            crate::text::append_all(&mut out, &d3);
        }
        proof {
            assert(out@ =~= milli_lit(m));
        }
        out
    }
}

/// Strip a trailing slash run and one known provider path suffix from a
/// base URL, longest suffix first.
pub open spec fn normalize_spec(url: Seq<char>) -> Seq<char> {
    let t = trim_slashes(url);
    if ends_with(t, "/v1/chat/completions"@) {
        t.subrange(0, t.len() - 20)
    } else if ends_with(t, "/v1/chat"@) {
        t.subrange(0, t.len() - 8)
    } else if ends_with(t, "/v1"@) {
        t.subrange(0, t.len() - 3)
    } else if ends_with(t, "/api/generate"@) {
        t.subrange(0, t.len() - 13)
    } else if ends_with(t, "/api/chat"@) {
        t.subrange(0, t.len() - 9)
    } else if ends_with(t, "/api"@) {
        t.subrange(0, t.len() - 4)
    } else {
        t
    }
}

/// Whether `s` ends with `suffix`.
pub open spec fn ends_with(s: Seq<char>, suffix: Seq<char>) -> bool {
    match_at(s, suffix, s.len() - suffix.len())
}

/// `s` without trailing slashes.
pub open spec fn trim_slashes(s: Seq<char>) -> Seq<char>
    decreases s.len(),
{
    if s.len() > 0 && s.last() == '/' {
        trim_slashes(s.drop_last())
    } else {
        s
    }
}

/// Whether the text ends with the given suffix, at runtime.
fn ends_with_exec(s: &Vec<char>, suffix: &Vec<char>) -> (r: bool)
    ensures
        r == ends_with(s@, suffix@),
{
    let n = s.len();
    let m = suffix.len();
    if m > n {
        proof {
            assert(!match_at(s@, suffix@, s@.len() - suffix@.len()));
        }
        return false;
    }
    crate::text::matches_at(s, suffix, n - m)
}

/// Normalize a base URL: trailing slashes trimmed, one known provider
/// path suffix stripped, longest first.
#[verifier::loop_isolation(false)]
pub fn normalize_base_url(url: &str) -> (r: String)
    ensures
        r@ == normalize_spec(url@),
{
    proof {
        reveal_strlit("/v1/chat/completions");
        reveal_strlit("/v1/chat");
        reveal_strlit("/v1");
        reveal_strlit("/api/generate");
        reveal_strlit("/api/chat");
        reveal_strlit("/api");
    }
    let cs = chars_of(url);
    let mut b = cs.len();
    proof {
        assert(cs@.subrange(0, cs@.len() as int) =~= cs@);
    }
    while b > 0 && cs[b - 1] == '/'
        invariant
            0 <= b <= cs@.len(),
            trim_slashes(cs@) == trim_slashes(cs@.subrange(0, b as int)),
        decreases b,
    {
        proof {
            assert(cs@.subrange(0, b as int).drop_last() =~= cs@.subrange(0, b - 1));
        }
        b = b - 1;
    }
    let t = slice_range(&cs, 0, b);
    proof {
        if b > 0 {
            assert(trim_slashes(cs@.subrange(0, b as int)) == cs@.subrange(0, b as int));
        } else {
            assert(cs@.subrange(0, 0) =~= Seq::<char>::empty());
        }
        assert(t@ == trim_slashes(cs@));
    }
    let tn = t.len();
    let suffixes = ["/v1/chat/completions", "/v1/chat", "/v1", "/api/generate", "/api/chat",
        "/api"];
    let lens: [usize; 6] = [20, 8, 3, 13, 9, 4];
    let mut k: usize = 0;
    let ghost sv = seq![
        "/v1/chat/completions"@,
        "/v1/chat"@,
        "/v1"@,
        "/api/generate"@,
        "/api/chat"@,
        "/api"@,
    ];
    while k < 6
        invariant
            0 <= k <= 6,
            tn == t@.len(),
            t@ == trim_slashes(url@),
            forall|j: int| 0 <= j < k ==> !ends_with(t@, sv[j]),
        decreases 6 - k,
    {
        let suf = chars_of(suffixes[k]);
        proof {
            assert(suf@ == sv[k as int]);
        }
        if ends_with_exec(&t, &suf) {
            let cut = slice_range(&t, 0, tn - lens[k]);
            return string_of(&cut);
        }
        k = k + 1;
    }
    string_of(&t)
}

/// One chat message as a wire object.
pub open spec fn message_obj(role: Seq<char>, content: Seq<char>) -> JsonV {
    JsonV::Obj(seq![("role"@, JsonV::Str(role)), ("content"@, JsonV::Str(content))])
}

/// The wire name of a role.
pub open spec fn role_name(r: Role) -> Seq<char> {
    match r {
        Role::System => "system"@,
        Role::User => "user"@,
        Role::Assistant => "assistant"@,
    }
}

/// One chat message as a wire object, at runtime.
fn message_obj_exec(role: &str, content: &str) -> (r: JsonValue)
    ensures
        r@ == message_obj(role@, content@),
{
    proof {
        reveal_strlit("role");
        reveal_strlit("content");
    }
    let mut fields: Vec<(String, JsonValue)> = Vec::new();
    fields.push((string_from("role"), JsonValue::Str(string_from(role))));
    fields.push((string_from("content"), JsonValue::Str(string_from(content))));
    let r = JsonValue::Obj(fields);
    proof {
        crate::jsonval::lemma_jv_pairs(r->Obj_0@);
        assert(r@->Obj_0 =~= message_obj(role@, content@)->Obj_0);
    }
    r
}

/// The wire name of a role, at runtime.
fn role_name_exec(role: Role) -> (r: &'static str)
    ensures
        r@ == role_name(role),
{
    match role {
        Role::System => "system",
        Role::User => "user",
        Role::Assistant => "assistant",
    }
}

/// The message array both providers build: the system prompt when set
/// and non-empty, the prior history, and — only without history — the
/// current user prompt.
pub open spec fn messages_spec(req: LlmRequest) -> Seq<JsonV> {
    let sys: Seq<JsonV> = match req.system_prompt {
        Some(s) => if s@.len() > 0 {
            seq![message_obj("system"@, s@)]
        } else {
            Seq::empty()
        },
        None => Seq::empty(),
    };
    let history = Seq::new(
        req.messages@.len(),
        |j: int| message_obj(role_name(req.messages@[j].role), req.messages@[j].content@),
    );
    let tail: Seq<JsonV> = if req.messages@.len() == 0 {
        seq![message_obj("user"@, req.prompt@)]
    } else {
        Seq::empty()
    };
    sys + history + tail
}

/// Build the message array for a chat-shaped request.
#[verifier::loop_isolation(false)]
pub fn build_messages(request: &LlmRequest) -> (r: Vec<JsonValue>)
    ensures
        crate::jsonval::JsonValue::jv_seq(r@) == messages_spec(*request),
{
    proof {
        reveal_strlit("system");
        reveal_strlit("user");
        reveal_strlit("assistant");
    }
    let mut out: Vec<JsonValue> = Vec::new();
    match &request.system_prompt {
        Some(s) => {
            if s.as_str().unicode_len() > 0 {
                out.push(message_obj_exec("system", s.as_str()));
            }
        }
        None => {}
    }
    let ghost sys_len = out@.len();
    let n = request.messages.len();
    let mut i: usize = 0;
    while i < n
        invariant
            0 <= i <= n,
            n == request.messages@.len(),
            out@.len() == sys_len + i,
            forall|j: int| 0 <= j < out@.len() ==> (#[trigger] out@[j])@ == messages_spec(
                *request,
            )[j],
            sys_len == (match request.system_prompt {
                Some(s) => if s@.len() > 0 {
                    1int
                } else {
                    0int
                },
                None => 0int,
            }),
        decreases n - i,
    {
        let role = role_name_exec(request.messages[i].role);
        out.push(message_obj_exec(role, request.messages[i].content.as_str()));
        i = i + 1;
    }
    if n == 0 {
        out.push(message_obj_exec("user", request.prompt.as_str()));
    }
    proof {
        crate::jsonval::lemma_jv_seq(out@);
        assert(crate::jsonval::JsonValue::jv_seq(out@) =~= messages_spec(*request));
    }
    out
}

/// The generate/chat provider: one endpoint for prompt-only requests,
/// another for system-prompt or multi-turn calls; NDJSON streaming.
#[derive(Debug)]
pub struct OllamaBackend;

/// The options object both body shapes carry: temperature, token
/// budget, the thinking flag when set, and the caller's custom options
/// shallow-merged on top.
pub open spec fn options_spec(req: LlmRequest) -> Seq<(Seq<char>, JsonV)> {
    let base: Seq<(Seq<char>, JsonV)> = seq![
        ("temperature"@, JsonV::Num(milli_lit(req.config.temperature_milli))),
        ("num_predict"@, JsonV::Num(dec_rep(req.config.max_tokens as int))),
    ];
    let with_think: Seq<(Seq<char>, JsonV)> = if req.config.thinking {
        base.push(("extended_thinking"@, JsonV::Bool(true)))
    } else {
        base
    };
    match req.config.options {
        Some(v) => match v@ {
            JsonV::Obj(extra) => merge_fields(with_think, extra, 0),
            _ => with_think,
        },
        None => with_think,
    }
}

/// Fields of `extra` merged into `base` one by one: an existing key is
/// replaced in place, a new key is appended.
pub open spec fn merge_fields(
    base: Seq<(Seq<char>, JsonV)>,
    extra: Seq<(Seq<char>, JsonV)>,
    k: int,
) -> Seq<(Seq<char>, JsonV)>
    decreases extra.len() - k
        when 0 <= k
{
    if k >= extra.len() {
        base
    } else {
        merge_fields(set_field(base, extra[k].0, extra[k].1, 0), extra, k + 1)
    }
}

/// `fields` with the first entry under `key` replaced by `val`, or with
/// `(key, val)` appended when the key is absent.
pub open spec fn set_field(
    fields: Seq<(Seq<char>, JsonV)>,
    key: Seq<char>,
    val: JsonV,
    j: int,
) -> Seq<(Seq<char>, JsonV)>
    decreases fields.len() - j
        when 0 <= j
{
    if j >= fields.len() {
        fields.push((key, val))
    } else if fields[j].0 == key {
        fields.update(j, (key, val))
    } else {
        set_field(fields, key, val, j + 1)
    }
}

/// Replace or append one field at runtime.
#[verifier::loop_isolation(false)]
fn set_field_exec(fields: &mut Vec<(String, JsonValue)>, key: &str, val: JsonValue)
    ensures
        crate::jsonval::JsonValue::jv_pairs(final(fields)@) == set_field(
            crate::jsonval::JsonValue::jv_pairs(old(fields)@),
            key@,
            val@,
            0,
        ),
{
    let n = fields.len();
    proof {
        crate::jsonval::lemma_jv_pairs(fields@);
    }
    let ghost fv = crate::jsonval::JsonValue::jv_pairs(fields@);
    let mut j: usize = 0;
    while j < n
        invariant
            0 <= j <= n,
            n == fields@.len(),
            fields@ == old(fields)@,
            fv == crate::jsonval::JsonValue::jv_pairs(fields@),
            fv.len() == n,
            forall|i: int| 0 <= i < n ==> fv[i] == (fields@[i].0@, fields@[i].1@),
            set_field(fv, key@, val@, 0) == set_field(fv, key@, val@, j as int),
        decreases n - j,
    {
        if crate::output_parser::listparse::str_eq_key(fields[j].0.as_str(), key) {
            let ghost pre = fields@;
            fields.set(j, (string_from(key), val));
            proof {
                crate::jsonval::lemma_jv_pairs(fields@);
                assert(crate::jsonval::JsonValue::jv_pairs(fields@) =~= fv.update(
                    j as int,
                    (key@, val@),
                ));
            }
            return;
        }
        j = j + 1;
    }
    fields.push((string_from(key), val));
    proof {
        crate::jsonval::lemma_jv_pairs(fields@);
        assert(crate::jsonval::JsonValue::jv_pairs(fields@) =~= fv.push((key@, val@)));
    }
}

impl OllamaBackend {
    /// Whether this request should use the chat endpoint rather than the
    /// generate endpoint: a non-empty system prompt, or prior turns.
    pub fn use_chat(request: &LlmRequest) -> (r: bool)
        ensures
            r == ((match request.system_prompt {
                Some(s) => s@.len() > 0,
                None => false,
            }) || request.messages@.len() > 0),
    {
        let has_sys = match &request.system_prompt {
            Some(s) => s.as_str().unicode_len() > 0,
            None => false,
        };
        has_sys || request.messages.len() > 0
    }

    /// Build the provider `options` object from the configuration.
    #[verifier::loop_isolation(false)]
    pub fn build_options(request: &LlmRequest) -> (r: JsonValue)
        ensures
            r@ == JsonV::Obj(options_spec(*request)),
    {
        proof {
            reveal_strlit("temperature");
            reveal_strlit("num_predict");
            reveal_strlit("extended_thinking");
        }
        let mut fields: Vec<(String, JsonValue)> = Vec::new();
        let temp_lit = milli_lit_exec(request.config.temperature_milli);
        fields.push(
            (string_from("temperature"), JsonValue::Num(string_of(&temp_lit))),
        );
        let tok_lit = crate::prompt::u32_dec(request.config.max_tokens);
        fields.push((string_from("num_predict"), JsonValue::Num(string_of(&tok_lit))));
        if request.config.thinking {
            fields.push((string_from("extended_thinking"), JsonValue::Bool(true)));
        }
        proof {
            crate::jsonval::lemma_jv_pairs(fields@);
            let fv0 = crate::jsonval::JsonValue::jv_pairs(fields@);
            if request.config.thinking {
                assert(fv0 =~= seq![
                    ("temperature"@, JsonV::Num(milli_lit(request.config.temperature_milli))),
                    ("num_predict"@, JsonV::Num(dec_rep(request.config.max_tokens as int))),
                    ("extended_thinking"@, JsonV::Bool(true)),
                ]);
            } else {
                assert(fv0 =~= seq![
                    ("temperature"@, JsonV::Num(milli_lit(request.config.temperature_milli))),
                    ("num_predict"@, JsonV::Num(dec_rep(request.config.max_tokens as int))),
                ]);
            }
        }
        match &request.config.options {
            Some(custom) => {
                match custom {
                    JsonValue::Obj(extra) => {
                        proof {
                            crate::jsonval::lemma_jv_pairs(extra@);
                        }
                        let ghost ev = crate::jsonval::JsonValue::jv_pairs(extra@);
                        proof {
                            let fv0 = crate::jsonval::JsonValue::jv_pairs(fields@);
                            let base: Seq<(Seq<char>, JsonV)> = seq![
                                (
                                    "temperature"@,
                                    JsonV::Num(milli_lit(request.config.temperature_milli)),
                                ),
                                (
                                    "num_predict"@,
                                    JsonV::Num(dec_rep(request.config.max_tokens as int)),
                                ),
                            ];
                            if request.config.thinking {
                                assert(base.push(("extended_thinking"@, JsonV::Bool(true)))
                                    =~= fv0);
                            } else {
                                assert(base =~= fv0);
                            }
                            assert(options_spec(*request) == merge_fields(fv0, ev, 0));
                        }
                        let m = extra.len();
                        let mut k: usize = 0;
                        while k < m
                            invariant
                                0 <= k <= m,
                                m == extra@.len(),
                                ev == crate::jsonval::JsonValue::jv_pairs(extra@),
                                ev.len() == m,
                                forall|i: int| 0 <= i < m ==> ev[i] == (
                                    extra@[i].0@,
                                    extra@[i].1@,
                                ),
                                merge_fields(
                                    crate::jsonval::JsonValue::jv_pairs(fields@),
                                    ev,
                                    k as int,
                                ) == options_spec(*request),
                            decreases m - k,
                        {
                            let val = extra[k].1.deep_clone();
                            set_field_exec(&mut fields, extra[k].0.as_str(), val);
                            k = k + 1;
                        }
                    }
                    _ => {}
                }
            }
            None => {}
        }
        let r = JsonValue::Obj(fields);
        proof {
            assert(r@->Obj_0 =~= options_spec(*request));
        }
        r
    }

    /// Build the body for the generate endpoint.
    pub fn build_generate_body(request: &LlmRequest, stream: bool) -> (r: JsonValue)
        ensures
            r@ matches JsonV::Obj(fields) && {
                &&& jv_lookup(fields, "model"@) == Some(JsonV::Str(request.model@))
                &&& jv_lookup(fields, "prompt"@) == Some(JsonV::Str(request.prompt@))
                &&& jv_lookup(fields, "stream"@) == Some(JsonV::Bool(stream))
                &&& jv_lookup(fields, "options"@) == Some(
                    JsonV::Obj(options_spec(*request)),
                )
                &&& jv_lookup(fields, "format"@) == if request.config.json_mode {
                    Some(JsonV::Str("json"@))
                } else {
                    None::<JsonV>
                }
            },
    {
        proof {
            reveal_strlit("model");
            reveal_strlit("prompt");
            reveal_strlit("stream");
            reveal_strlit("options");
            reveal_strlit("format");
            reveal_strlit("json");
        }
        let mut fields: Vec<(String, JsonValue)> = Vec::new();
        fields.push((string_from("model"), JsonValue::Str(string_from(request.model.as_str()))));
        fields.push(
            (string_from("prompt"), JsonValue::Str(string_from(request.prompt.as_str()))),
        );
        fields.push((string_from("stream"), JsonValue::Bool(stream)));
        fields.push((string_from("options"), Self::build_options(request)));
        if request.config.json_mode {
            fields.push((string_from("format"), JsonValue::Str(string_from("json"))));
        }
        let r = JsonValue::Obj(fields);
        proof {
            crate::jsonval::lemma_jv_pairs(r->Obj_0@);
            let fv = crate::jsonval::JsonValue::jv_pairs(r->Obj_0@);
            assert(fv[0].0 == "model"@);
            assert(fv[1].0 == "prompt"@);
            assert(fv[2].0 == "stream"@);
            assert(fv[3].0 == "options"@);
            assert("prompt"@[0] != "stream"@[0]);
            assert("prompt"@ != "stream"@);
            assert("prompt"@[0] != "format"@[0]);
            assert("prompt"@ != "format"@);
            assert("stream"@[0] != "format"@[0]);
            assert("stream"@ != "format"@);
            crate::jsonval::lemma_jv_lookup_at(fv, "model"@, 0);
            crate::jsonval::lemma_jv_lookup_at(fv, "prompt"@, 1);
            crate::jsonval::lemma_jv_lookup_at(fv, "stream"@, 2);
            crate::jsonval::lemma_jv_lookup_at(fv, "options"@, 3);
            if request.config.json_mode {
                crate::jsonval::lemma_jv_lookup_at(fv, "format"@, 4);
            } else {
                crate::jsonval::lemma_jv_lookup_none(fv, "format"@);
            }
        }
        r
    }

    /// Build the body for the chat endpoint.
    pub fn build_chat_body(request: &LlmRequest, stream: bool) -> (r: JsonValue)
        ensures
            r@ matches JsonV::Obj(fields) && {
                &&& jv_lookup(fields, "model"@) == Some(JsonV::Str(request.model@))
                &&& jv_lookup(fields, "messages"@) == Some(
                    JsonV::Arr(messages_spec(*request)),
                )
                &&& jv_lookup(fields, "stream"@) == Some(JsonV::Bool(stream))
                &&& jv_lookup(fields, "options"@) == Some(
                    JsonV::Obj(options_spec(*request)),
                )
                &&& jv_lookup(fields, "format"@) == if request.config.json_mode {
                    Some(JsonV::Str("json"@))
                } else {
                    None::<JsonV>
                }
            },
    {
        proof {
            reveal_strlit("model");
            reveal_strlit("messages");
            reveal_strlit("stream");
            reveal_strlit("options");
            reveal_strlit("format");
            reveal_strlit("json");
        }
        let mut fields: Vec<(String, JsonValue)> = Vec::new();
        fields.push((string_from("model"), JsonValue::Str(string_from(request.model.as_str()))));
        fields.push((string_from("messages"), JsonValue::Arr(build_messages(request))));
        fields.push((string_from("stream"), JsonValue::Bool(stream)));
        fields.push((string_from("options"), Self::build_options(request)));
        if request.config.json_mode {
            fields.push((string_from("format"), JsonValue::Str(string_from("json"))));
        }
        let r = JsonValue::Obj(fields);
        proof {
            crate::jsonval::lemma_jv_pairs(r->Obj_0@);
            let fv = crate::jsonval::JsonValue::jv_pairs(r->Obj_0@);
            assert(fv[0].0 == "model"@);
            assert(fv[1].0 == "messages"@);
            assert(fv[2].0 == "stream"@);
            assert(fv[3].0 == "options"@);
            assert("stream"@[0] != "format"@[0]);
            assert("stream"@ != "format"@);
            crate::jsonval::lemma_jv_lookup_at(fv, "model"@, 0);
            crate::jsonval::lemma_jv_lookup_at(fv, "messages"@, 1);
            crate::jsonval::lemma_jv_lookup_at(fv, "stream"@, 2);
            crate::jsonval::lemma_jv_lookup_at(fv, "options"@, 3);
            if request.config.json_mode {
                crate::jsonval::lemma_jv_lookup_at(fv, "format"@, 4);
            } else {
                crate::jsonval::lemma_jv_lookup_none(fv, "format"@);
            }
        }
        r
    }

    /// Parse a `Retry-After` header value as whole seconds: the trimmed
    /// value's decimal reading when it is a non-empty digit run that
    /// fits; nothing exactly when it is empty, holds a non-digit, or
    /// overflows.
    pub fn parse_retry_after(value: &str) -> (r: Option<u64>)
        ensures
            ({
                let t = crate::text::trim_spec(value@);
                match r {
                    Some(v) => t.len() > 0 && crate::backoff::all_digits(t) && v
                        == crate::output_parser::number::dig_val(t),
                    None => t.len() == 0 || !crate::backoff::all_digits(t)
                        || crate::output_parser::number::dig_val(t) > u64::MAX,
                }
            }),
    {
        crate::backoff::parse_retry_after_secs(value)
    }

    /// Copy the metadata fields this provider reports out of a response
    /// body: exactly the present keys of [`ollama_meta_keys`], with their
    /// values, in that order; nothing when none is present.
    #[verifier::loop_isolation(false)]
    pub fn extract_metadata(json_resp: &JsonValue) -> (r: Option<JsonValue>)
        ensures
            ({
                let picked = picked_fields(json_resp@, ollama_meta_keys(), 0);
                match r {
                    Some(v) => picked.len() > 0 && v@ == JsonV::Obj(picked),
                    None => picked.len() == 0,
                }
            }),
    {
        proof {
            reveal_strlit("total_duration");
            reveal_strlit("eval_count");
            reveal_strlit("eval_duration");
            reveal_strlit("prompt_eval_count");
            reveal_strlit("model");
        }
        let keys = ["total_duration", "eval_count", "eval_duration", "prompt_eval_count",
            "model"];
        let mut meta: Vec<(String, JsonValue)> = Vec::new();
        let ghost kv = ollama_meta_keys();
        let mut k: usize = 0;
        proof {
            crate::jsonval::lemma_jv_pairs(meta@);
        }
        while k < 5
            invariant
                0 <= k <= 5,
                kv == ollama_meta_keys(),
                picked_fields(json_resp@, kv, 0) == crate::jsonval::JsonValue::jv_pairs(meta@)
                    + picked_fields(json_resp@, kv, k as int),
            decreases 5 - k,
        {
            proof {
                assert(keys[k as int]@ == kv[k as int]);
            }
            match json_resp.get(keys[k]) {
                Some(v) => {
                    proof {
                        crate::jsonval::lemma_jv_pairs(meta@);
                    }
                    let ghost pre = crate::jsonval::JsonValue::jv_pairs(meta@);
                    meta.push((string_from(keys[k]), v.deep_clone()));
                    proof {
                        crate::jsonval::lemma_jv_pairs(meta@);
                        assert(crate::jsonval::JsonValue::jv_pairs(meta@) =~= pre.push(
                            (kv[k as int], v@),
                        ));
                        assert(picked_fields(json_resp@, kv, 0)
                            =~= crate::jsonval::JsonValue::jv_pairs(meta@) + picked_fields(
                            json_resp@,
                            kv,
                            k + 1,
                        ));
                    }
                }
                None => {
                    proof {
                        assert(picked_fields(json_resp@, kv, k as int) == picked_fields(
                            json_resp@,
                            kv,
                            k + 1,
                        ));
                    }
                }
            }
            k = k + 1;
        }
        proof {
            assert(picked_fields(json_resp@, kv, 5) =~= Seq::<(Seq<char>, JsonV)>::empty());
            assert(picked_fields(json_resp@, kv, 0)
                =~= crate::jsonval::JsonValue::jv_pairs(meta@));
        }
        if meta.len() == 0 {
            proof {
                assert(crate::jsonval::JsonValue::jv_pairs(meta@)
                    =~= Seq::<(Seq<char>, JsonV)>::empty());
            }
            None
        } else {
            let r = JsonValue::Obj(meta);
            proof {
                crate::jsonval::lemma_jv_pairs(r->Obj_0@);
            }
            Some(r)
        }
    }
}

/// The token text an NDJSON frame of the generate/chat provider
/// carries: under `message.content` for chat frames, under `response`
/// for generate frames.
pub open spec fn ollama_token_spec(v: JsonV, chat: bool) -> Option<Seq<char>> {
    if chat {
        match v {
            JsonV::Obj(fields) => match jv_lookup(fields, "message"@) {
                Some(JsonV::Obj(m)) => match jv_lookup(m, "content"@) {
                    Some(JsonV::Str(s)) => Some(s),
                    _ => None,
                },
                _ => None,
            },
            _ => None,
        }
    } else {
        match v {
            JsonV::Obj(fields) => match jv_lookup(fields, "response"@) {
                Some(JsonV::Str(s)) => Some(s),
                _ => None,
            },
            _ => None,
        }
    }
}

/// Whether a frame is the terminal one: its `done` field is `true`.
pub open spec fn ollama_done_spec(v: JsonV) -> bool {
    match v {
        JsonV::Obj(fields) => jv_lookup(fields, "done"@) == Some(JsonV::Bool(true)),
        _ => false,
    }
}

/// The token text of a streamed chat-completions frame: under
/// `choices[0].delta.content`.
pub open spec fn openai_delta_spec(v: JsonV) -> Option<Seq<char>> {
    match v {
        JsonV::Obj(fields) => match jv_lookup(fields, "choices"@) {
            Some(JsonV::Arr(items)) => if items.len() > 0 {
                match items[0] {
                    JsonV::Obj(c0) => match jv_lookup(c0, "delta"@) {
                        Some(JsonV::Obj(d)) => match jv_lookup(d, "content"@) {
                            Some(JsonV::Str(s)) => Some(s),
                            _ => None,
                        },
                        _ => None,
                    },
                    _ => None,
                }
            } else {
                None
            },
            _ => None,
        },
        _ => None,
    }
}

/// The text of a non-streaming chat-completions response: under
/// `choices[0].message.content`.
pub open spec fn openai_content_spec(v: JsonV) -> Option<Seq<char>> {
    match v {
        JsonV::Obj(fields) => match jv_lookup(fields, "choices"@) {
            Some(JsonV::Arr(items)) => if items.len() > 0 {
                match items[0] {
                    JsonV::Obj(c0) => match jv_lookup(c0, "message"@) {
                        Some(JsonV::Obj(m)) => match jv_lookup(m, "content"@) {
                            Some(JsonV::Str(s)) => Some(s),
                            _ => None,
                        },
                        _ => None,
                    },
                    _ => None,
                }
            } else {
                None
            },
            _ => None,
        },
        _ => None,
    }
}

impl OllamaBackend {
    /// The token text of one decoded frame, per [`ollama_token_spec`].
    pub fn token_of(frame: &JsonValue, chat: bool) -> (r: Option<String>)
        ensures
            match r {
                Some(s) => ollama_token_spec(frame@, chat) == Some(s@),
                None => ollama_token_spec(frame@, chat) is None,
            },
    {
        proof {
            reveal_strlit("message");
            reveal_strlit("content");
            reveal_strlit("response");
        }
        if chat {
            match frame.get("message") {
                Some(m) => match m.get("content") {
                    Some(inner) => match inner {
                        JsonValue::Str(s) => Some(string_from(s.as_str())),
                        _ => None,
                    },
                    None => None,
                },
                None => None,
            }
        } else {
            match frame.get("response") {
                Some(inner) => match inner {
                    JsonValue::Str(s) => Some(string_from(s.as_str())),
                    _ => None,
                },
                None => None,
            }
        }
    }

    /// Whether a decoded frame is the terminal one.
    pub fn is_done(frame: &JsonValue) -> (r: bool)
        ensures
            r == ollama_done_spec(frame@),
    {
        proof {
            reveal_strlit("done");
        }
        match frame.get("done") {
            Some(v) => match v {
                JsonValue::Bool(b) => *b,
                _ => false,
            },
            None => false,
        }
    }
}

impl OpenAiBackend {
    /// The token text of one streamed frame, per [`openai_delta_spec`].
    pub fn delta_of(frame: &JsonValue) -> (r: Option<String>)
        ensures
            match r {
                Some(s) => openai_delta_spec(frame@) == Some(s@),
                None => openai_delta_spec(frame@) is None,
            },
    {
        proof {
            reveal_strlit("choices");
            reveal_strlit("delta");
            reveal_strlit("content");
        }
        match Self::first_choice(frame) {
            Some(c0) => match c0.get("delta") {
                Some(d) => match d.get("content") {
                    Some(inner) => match inner {
                        JsonValue::Str(s) => Some(string_from(s.as_str())),
                        _ => None,
                    },
                    None => None,
                },
                None => None,
            },
            None => None,
        }
    }

    /// The response text of a non-streaming body, per
    /// [`openai_content_spec`].
    pub fn content_of(resp: &JsonValue) -> (r: Option<String>)
        ensures
            match r {
                Some(s) => openai_content_spec(resp@) == Some(s@),
                None => openai_content_spec(resp@) is None,
            },
    {
        proof {
            reveal_strlit("choices");
            reveal_strlit("message");
            reveal_strlit("content");
        }
        match Self::first_choice(resp) {
            Some(c0) => match c0.get("message") {
                Some(m) => match m.get("content") {
                    Some(inner) => match inner {
                        JsonValue::Str(s) => Some(string_from(s.as_str())),
                        _ => None,
                    },
                    None => None,
                },
                None => None,
            },
            None => None,
        }
    }

    /// The first element of the `choices` array, if the body has one.
    fn first_choice(v: &JsonValue) -> (r: Option<&JsonValue>)
        ensures
            ({
                let spec_first = match v@ {
                    JsonV::Obj(fields) => match jv_lookup(fields, "choices"@) {
                        Some(JsonV::Arr(items)) => if items.len() > 0 {
                            Some(items[0])
                        } else {
                            None::<JsonV>
                        },
                        _ => None,
                    },
                    _ => None,
                };
                match r {
                    Some(c) => spec_first == Some(c@),
                    None => spec_first is None,
                }
            }),
    {
        proof {
            reveal_strlit("choices");
        }
        match v.get("choices") {
            Some(c) => match c {
                JsonValue::Arr(items) => {
                    if items.len() > 0 {
                        proof {
                            crate::jsonval::lemma_jv_seq(items@);
                        }
                        Some(&items[0])
                    } else {
                        None
                    }
                }
                _ => None,
            },
            None => None,
        }
    }
}

/// The metadata keys the generate/chat provider reports.
pub open spec fn ollama_meta_keys() -> Seq<Seq<char>> {
    seq![
        "total_duration"@,
        "eval_count"@,
        "eval_duration"@,
        "prompt_eval_count"@,
        "model"@,
    ]
}

/// The metadata keys the chat-completions provider reports.
pub open spec fn openai_meta_keys() -> Seq<Seq<char>> {
    seq!["usage"@, "model"@, "id"@]
}

/// The listed keys that are present in `resp`, paired with their values,
/// in list order; empty when `resp` is no object or holds none of them.
pub open spec fn picked_fields(resp: JsonV, keys: Seq<Seq<char>>, k: int) -> Seq<
    (Seq<char>, JsonV),
>
    decreases keys.len() - k
        when 0 <= k
{
    if k >= keys.len() {
        Seq::empty()
    } else {
        let rest = picked_fields(resp, keys, k + 1);
        match resp {
            JsonV::Obj(fields) => match jv_lookup(fields, keys[k]) {
                Some(v) => seq![(keys[k], v)] + rest,
                None => rest,
            },
            _ => rest,
        }
    }
}

/// The chat-completions provider: one endpoint, always chat-shaped, with
/// optional bearer-token and organization headers; streaming is
/// server-sent events.
pub struct OpenAiBackend {
    /// Optional API key, sent as a bearer token.
    pub api_key: Option<String>,
    /// Optional organization identifier header.
    pub organization: Option<String>,
}

impl OpenAiBackend {
    /// A backend without authentication.
    pub fn new() -> (r: OpenAiBackend)
        ensures
            r.api_key is None,
            r.organization is None,
    {
        OpenAiBackend { api_key: None, organization: None }
    }

    /// Set the API key.
    pub fn with_api_key(self, key: &str) -> (r: OpenAiBackend)
        ensures
            r.api_key matches Some(k) && k@ == key@,
            r.organization == self.organization,
    {
        OpenAiBackend { api_key: Some(string_from(key)), ..self }
    }

    /// Set the organization identifier.
    pub fn with_organization(self, org: &str) -> (r: OpenAiBackend)
        ensures
            r.organization matches Some(o) && o@ == org@,
            r.api_key == self.api_key,
    {
        OpenAiBackend { organization: Some(string_from(org)), ..self }
    }

    /// Whether an API key has been configured.
    pub fn has_api_key(&self) -> (r: bool)
        ensures
            r == (self.api_key is Some),
    {
        self.api_key.is_some()
    }

    /// Whether an organization identifier has been configured.
    pub fn has_organization(&self) -> (r: bool)
        ensures
            r == (self.organization is Some),
    {
        self.organization.is_some()
    }

    /// A debug rendering that never reveals more than the first six
    /// characters of the key: a longer key shows exactly its first six
    /// characters before the redaction marker, a shorter one nothing.
    pub fn debug_text(&self) -> (r: String)
        ensures
            self.api_key is None ==> r@ == "OpenAiBackend(key: None)"@,
            self.api_key matches Some(k) ==> r@ == "OpenAiBackend("@ + (if k@.len() > 6 {
                k@.subrange(0, 6)
            } else {
                Seq::<char>::empty()
            }) + "***)"@,
    {
        match &self.api_key {
            Some(k) => {
                let kv = chars_of(k.as_str());
                let mut out = chars_of("OpenAiBackend(");
                if kv.len() > 6 {
                    let head = slice_range(&kv, 0, 6);
                    crate::text::append_all(&mut out, &head);
                    let stars = chars_of("***)");
                    crate::text::append_all(&mut out, &stars);
                } else {
                    let stars = chars_of("***)");
                    crate::text::append_all(&mut out, &stars);
                }
                proof {
                    if k@.len() > 6 {
                        assert(out@ =~= "OpenAiBackend("@ + k@.subrange(0, 6) + "***)"@);
                    } else {
                        assert(out@ =~= "OpenAiBackend("@ + Seq::<char>::empty() + "***)"@);
                    }
                }
                string_of(&out)
            }
            None => string_from("OpenAiBackend(key: None)"),
        }
    }

    /// Build the chat-completions request body.
    pub fn build_body(request: &LlmRequest, stream: bool) -> (r: JsonValue)
        ensures
            r@ matches JsonV::Obj(fields) && {
                &&& jv_lookup(fields, "model"@) == Some(JsonV::Str(request.model@))
                &&& jv_lookup(fields, "messages"@) == Some(
                    JsonV::Arr(messages_spec(*request)),
                )
                &&& jv_lookup(fields, "temperature"@) == Some(
                    JsonV::Num(milli_lit(request.config.temperature_milli)),
                )
                &&& jv_lookup(fields, "max_tokens"@) == Some(
                    JsonV::Num(dec_rep(request.config.max_tokens as int)),
                )
                &&& jv_lookup(fields, "stream"@) == Some(JsonV::Bool(stream))
                &&& jv_lookup(fields, "response_format"@) == if request.config.json_mode {
                    Some(JsonV::Obj(seq![("type"@, JsonV::Str("json_object"@))]))
                } else {
                    None::<JsonV>
                }
            },
    {
        proof {
            reveal_strlit("model");
            reveal_strlit("messages");
            reveal_strlit("temperature");
            reveal_strlit("max_tokens");
            reveal_strlit("stream");
            reveal_strlit("response_format");
            reveal_strlit("type");
            reveal_strlit("json_object");
        }
        let mut fields: Vec<(String, JsonValue)> = Vec::new();
        fields.push((string_from("model"), JsonValue::Str(string_from(request.model.as_str()))));
        fields.push((string_from("messages"), JsonValue::Arr(build_messages(request))));
        let temp_lit = milli_lit_exec(request.config.temperature_milli);
        fields.push(
            (string_from("temperature"), JsonValue::Num(string_of(&temp_lit))),
        );
        let tok_lit = crate::prompt::u32_dec(request.config.max_tokens);
        fields.push((string_from("max_tokens"), JsonValue::Num(string_of(&tok_lit))));
        fields.push((string_from("stream"), JsonValue::Bool(stream)));
        if request.config.json_mode {
            let mut rf: Vec<(String, JsonValue)> = Vec::new();
            rf.push((string_from("type"), JsonValue::Str(string_from("json_object"))));
            proof {
                crate::jsonval::lemma_jv_pairs(rf@);
                assert(crate::jsonval::JsonValue::jv_pairs(rf@) =~= seq![
                    ("type"@, JsonV::Str("json_object"@)),
                ]);
            }
            fields.push((string_from("response_format"), JsonValue::Obj(rf)));
        }
        let r = JsonValue::Obj(fields);
        proof {
            crate::jsonval::lemma_jv_pairs(r->Obj_0@);
            let fv = crate::jsonval::JsonValue::jv_pairs(r->Obj_0@);
            assert(fv[0].0 == "model"@);
            assert(fv[1].0 == "messages"@);
            assert(fv[2].0 == "temperature"@);
            assert(fv[3].0 == "max_tokens"@);
            assert(fv[4].0 == "stream"@);
            crate::jsonval::lemma_jv_lookup_at(fv, "model"@, 0);
            crate::jsonval::lemma_jv_lookup_at(fv, "messages"@, 1);
            crate::jsonval::lemma_jv_lookup_at(fv, "temperature"@, 2);
            crate::jsonval::lemma_jv_lookup_at(fv, "max_tokens"@, 3);
            crate::jsonval::lemma_jv_lookup_at(fv, "stream"@, 4);
            if request.config.json_mode {
                crate::jsonval::lemma_jv_lookup_at(fv, "response_format"@, 5);
            } else {
                crate::jsonval::lemma_jv_lookup_none(fv, "response_format"@);
            }
        }
        r
    }

    /// Parse a `Retry-After` header value as whole seconds: the trimmed
    /// value's decimal reading when it is a non-empty digit run that
    /// fits; nothing exactly when it is empty, holds a non-digit, or
    /// overflows.
    pub fn parse_retry_after(value: &str) -> (r: Option<u64>)
        ensures
            ({
                let t = crate::text::trim_spec(value@);
                match r {
                    Some(v) => t.len() > 0 && crate::backoff::all_digits(t) && v
                        == crate::output_parser::number::dig_val(t),
                    None => t.len() == 0 || !crate::backoff::all_digits(t)
                        || crate::output_parser::number::dig_val(t) > u64::MAX,
                }
            }),
    {
        crate::backoff::parse_retry_after_secs(value)
    }

    /// Copy the metadata fields this provider reports out of a response
    /// body: exactly the present keys of [`openai_meta_keys`], with their
    /// values, in that order; nothing when none is present.
    #[verifier::loop_isolation(false)]
    pub fn extract_metadata(json_resp: &JsonValue) -> (r: Option<JsonValue>)
        ensures
            ({
                let picked = picked_fields(json_resp@, openai_meta_keys(), 0);
                match r {
                    Some(v) => picked.len() > 0 && v@ == JsonV::Obj(picked),
                    None => picked.len() == 0,
                }
            }),
    {
        proof {
            reveal_strlit("usage");
            reveal_strlit("model");
            reveal_strlit("id");
        }
        let keys = ["usage", "model", "id"];
        let mut meta: Vec<(String, JsonValue)> = Vec::new();
        let ghost kv = openai_meta_keys();
        let mut k: usize = 0;
        proof {
            crate::jsonval::lemma_jv_pairs(meta@);
        }
        while k < 3
            invariant
                0 <= k <= 3,
                kv == openai_meta_keys(),
                picked_fields(json_resp@, kv, 0) == crate::jsonval::JsonValue::jv_pairs(meta@)
                    + picked_fields(json_resp@, kv, k as int),
            decreases 3 - k,
        {
            proof {
                assert(keys[k as int]@ == kv[k as int]);
            }
            match json_resp.get(keys[k]) {
                Some(v) => {
                    proof {
                        crate::jsonval::lemma_jv_pairs(meta@);
                    }
                    let ghost pre = crate::jsonval::JsonValue::jv_pairs(meta@);
                    meta.push((string_from(keys[k]), v.deep_clone()));
                    proof {
                        crate::jsonval::lemma_jv_pairs(meta@);
                        assert(crate::jsonval::JsonValue::jv_pairs(meta@) =~= pre.push(
                            (kv[k as int], v@),
                        ));
                        assert(picked_fields(json_resp@, kv, 0)
                            =~= crate::jsonval::JsonValue::jv_pairs(meta@) + picked_fields(
                            json_resp@,
                            kv,
                            k + 1,
                        ));
                    }
                }
                None => {
                    proof {
                        assert(picked_fields(json_resp@, kv, k as int) == picked_fields(
                            json_resp@,
                            kv,
                            k + 1,
                        ));
                    }
                }
            }
            k = k + 1;
        }
        proof {
            assert(picked_fields(json_resp@, kv, 3) =~= Seq::<(Seq<char>, JsonV)>::empty());
            assert(picked_fields(json_resp@, kv, 0)
                =~= crate::jsonval::JsonValue::jv_pairs(meta@));
        }
        if meta.len() == 0 {
            proof {
                assert(crate::jsonval::JsonValue::jv_pairs(meta@)
                    =~= Seq::<(Seq<char>, JsonV)>::empty());
            }
            None
        } else {
            let r = JsonValue::Obj(meta);
            proof {
                crate::jsonval::lemma_jv_pairs(r->Obj_0@);
            }
            Some(r)
        }
    }
}

} // verus!
