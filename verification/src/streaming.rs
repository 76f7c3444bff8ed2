//! Buffered decoders for streamed provider responses: newline-delimited
//! JSON, and server-sent events. Both tolerate frames split across chunk
//! boundaries; unparseable lines are provider chatter, not errors.

use vstd::prelude::*;
use crate::text::{chars_of, find_from, slice_range, string_of, trim_chars, trim_spec, match_at};
use crate::jsonval::{JsonValue, JsonV};
use crate::json::{json_parse_ok, json_tree_of, parse_json_text};
use crate::output_parser::streaming::{auto_complete_json, complete_spec};

verus! {

/// What lossy UTF-8 decoding yields for a byte sequence: a function of
/// the bytes alone.
pub uninterp spec fn utf8_lossy_of(b: Seq<u8>) -> Seq<char>;

/// Decode bytes as UTF-8, replacing invalid sequences.
///
/// Relies on `String::from_utf8_lossy`: deterministic in the bytes.
#[verifier::external_body]
fn utf8_lossy(b: &[u8]) -> (r: String)
    ensures
        r@ == utf8_lossy_of(b@),
{
    String::from_utf8_lossy(b).into_owned()
}

/// The values of every complete newline-terminated frame of `s`: each
/// line trimmed, empties and unparseable lines skipped.
pub open spec fn ndjson_out(s: Seq<char>) -> Seq<JsonV>
    decreases s.len()
        via Self_ndjson_out_decreases
{
    match find_from(s, seq!['\n'], 0) {
        Some(p) => {
            let t = trim_spec(s.subrange(0, p + 1));
            let rest = ndjson_out(s.subrange(p + 1, s.len() as int));
            if t.len() == 0 {
                rest
            } else {
                match json_tree_of(t) {
                    Some(v) => seq![v] + rest,
                    None => rest,
                }
            }
        },
        None => Seq::empty(),
    }
}

#[via_fn]
proof fn Self_ndjson_out_decreases(s: Seq<char>) {
    crate::text::lemma_find_from(s, seq!['\n'], 0);
    match find_from(s, seq!['\n'], 0) {
        Some(p) => {
            crate::text::lemma_match_single(s, '\n', p);
        }
        None => {}
    }
}

/// The residue after every complete frame of `s`.
pub open spec fn ndjson_rest(s: Seq<char>) -> Seq<char>
    decreases s.len()
        via Self_ndjson_rest_decreases
{
    match find_from(s, seq!['\n'], 0) {
        Some(p) => ndjson_rest(s.subrange(p + 1, s.len() as int)),
        None => s,
    }
}

#[via_fn]
proof fn Self_ndjson_rest_decreases(s: Seq<char>) {
    crate::text::lemma_find_from(s, seq!['\n'], 0);
    match find_from(s, seq!['\n'], 0) {
        Some(p) => {
            crate::text::lemma_match_single(s, '\n', p);
        }
        None => {}
    }
}

/// Buffered decoder for newline-delimited JSON streams: bytes accumulate
/// and every complete line yields a value.
#[derive(Debug)]
pub struct StreamingDecoder {
    /// The undecoded residue.
    pub buffer: String,
}

impl StreamingDecoder {
    /// A new empty decoder.
    pub fn new() -> (r: StreamingDecoder)
        ensures
            r.buffer@ == Seq::<char>::empty(),
    {
        StreamingDecoder { buffer: String::new() }
    }

    /// Feed a raw chunk and collect the values of every line that is now
    /// complete; the incomplete tail stays buffered.
    #[verifier::loop_isolation(false)]
    pub fn decode(&mut self, chunk: &[u8]) -> (r: Vec<JsonValue>)
        ensures
            r@.map_values(|v: JsonValue| v@) == ndjson_out(
                old(self).buffer@ + utf8_lossy_of(chunk@),
            ),
            final(self).buffer@ == ndjson_rest(old(self).buffer@ + utf8_lossy_of(chunk@)),
    {
        let text = utf8_lossy(chunk);
        vstd::string::StringExecFns::append(&mut self.buffer, text.as_str());
        let ghost full = self.buffer@;
        let mut cs = chars_of(self.buffer.as_str());
        let mut values: Vec<JsonValue> = Vec::new();
        loop
            invariant
                ndjson_out(full) == values@.map_values(|v: JsonValue| v@) + ndjson_out(cs@),
                ndjson_rest(full) == ndjson_rest(cs@),
            decreases cs@.len(),
        {
            let m = cs.len();
            match crate::text::find_char_from(&cs, '\n', 0) {
                Some(p) => {
                    proof {
                        crate::output_parser::extract::lemma_find_from_singleton_some(
                            cs@,
                            '\n',
                            0,
                            p as int,
                        );
                    }
                    let line_raw = slice_range(&cs, 0, p + 1);
                    let line = trim_chars(&line_raw);
                    if line.len() > 0 {
                        let line_s = string_of(&line);
                        match parse_json_text(line_s.as_str()) {
                            Some(v) => {
                                values.push(v);
                                proof {
                                    assert(values@.map_values(|v: JsonValue| v@)
                                        =~= values@.map_values(|v: JsonValue| v@).subrange(
                                        0,
                                        values@.len() - 1,
                                    ).push(values@.last()@));
                                }
                            }
                            None => {}
                        }
                    }
                    let tail = slice_range(&cs, p + 1, m);
                    proof {
                        assert(ndjson_out(full) =~= values@.map_values(|v: JsonValue| v@)
                            + ndjson_out(cs@.subrange(p + 1, m as int)));
                    }
                    cs = tail;
                }
                None => {
                    proof {
                        crate::output_parser::extract::lemma_find_from_singleton_none(
                            cs@,
                            '\n',
                            0,
                        );
                        assert(ndjson_out(cs@) =~= Seq::<JsonV>::empty());
                        assert(ndjson_out(full) =~= values@.map_values(|v: JsonValue| v@));
                    }
                    break;
                }
            }
        }
        self.buffer = string_of(&cs);
        values
    }

    /// Flush the residue: parse it directly, or auto-complete a
    /// truncated tail.
    pub fn flush(&mut self) -> (r: Option<JsonValue>)
        ensures
            final(self).buffer@ == Seq::<char>::empty(),
            ({
                let t = trim_spec(old(self).buffer@);
                match r {
                    Some(v) => (json_tree_of(t) == Some(v@)) || (json_tree_of(t) is None && (
                    complete_spec(t) matches Some(c) && json_tree_of(c) == Some(v@))),
                    None => t.len() == 0 || (json_tree_of(t) is None && (complete_spec(
                        t,
                    ) is None)),
                }
            }),
    {
        let cs = chars_of(self.buffer.as_str());
        let t = trim_chars(&cs);
        self.buffer = String::new();
        if t.len() == 0 {
            return None;
        }
        let ts = string_of(&t);
        match parse_json_text(ts.as_str()) {
            Some(v) => {
                return Some(v);
            }
            None => {}
        }
        match auto_complete_json(ts.as_str()) {
            Some(completed) => {
                match parse_json_text(completed.as_str()) {
                    Some(v) => Some(v),
                    None => {
                        proof {
                            assert(false);
                        }
                        None
                    }
                }
            }
            None => None,
        }
    }
}

/// The value one SSE line yields: the JSON after its `data:` prefix,
/// unless the line is empty, an `event:` line, or the terminator.
pub open spec fn sse_line_val(line: Seq<char>) -> Option<JsonV> {
    let t = trim_spec(line);
    if t.len() == 0 {
        None
    } else if match_at(t, "event:"@, 0) {
        None
    } else {
        let d = if match_at(t, "data: "@, 0) {
            trim_spec(t.subrange(6, t.len() as int))
        } else if match_at(t, "data:"@, 0) {
            trim_spec(t.subrange(5, t.len() as int))
        } else {
            Seq::empty()
        };
        if d.len() == 0 || d == "[DONE]"@ {
            None
        } else {
            json_tree_of(d)
        }
    }
}

/// The values of every complete SSE line of `s`.
pub open spec fn sse_out(s: Seq<char>) -> Seq<JsonV>
    decreases s.len()
        via Self_sse_out_decreases
{
    match find_from(s, seq!['\n'], 0) {
        Some(p) => {
            let rest = sse_out(s.subrange(p + 1, s.len() as int));
            match sse_line_val(s.subrange(0, p + 1)) {
                Some(v) => seq![v] + rest,
                None => rest,
            }
        },
        None => Seq::empty(),
    }
}

#[via_fn]
proof fn Self_sse_out_decreases(s: Seq<char>) {
    crate::text::lemma_find_from(s, seq!['\n'], 0);
    match find_from(s, seq!['\n'], 0) {
        Some(p) => {
            crate::text::lemma_match_single(s, '\n', p);
        }
        None => {}
    }
}

/// The values of every line of a flushed residue, the final fragment
/// without a line feed included.
pub open spec fn sse_flush_out(s: Seq<char>) -> Seq<JsonV>
    decreases s.len()
        via Self_sse_flush_out_decreases
{
    if s.len() == 0 {
        Seq::empty()
    } else {
        match find_from(s, seq!['\n'], 0) {
            Some(p) => (match sse_line_val(s.subrange(0, p)) {
                Some(v) => seq![v],
                None => Seq::empty(),
            }) + sse_flush_out(s.subrange(p + 1, s.len() as int)),
            None => match sse_line_val(s) {
                Some(v) => seq![v],
                None => Seq::empty(),
            },
        }
    }
}

#[via_fn]
proof fn Self_sse_flush_out_decreases(s: Seq<char>) {
    crate::text::lemma_find_from(s, seq!['\n'], 0);
    match find_from(s, seq!['\n'], 0) {
        Some(p) => {
            crate::text::lemma_match_single(s, '\n', p);
        }
        None => {}
    }
}

/// Server-sent-events decoder for chat-completions streams: handles the
/// `data:` prefix, the `[DONE]` terminator, and frames split across
/// chunks.
#[derive(Debug)]
pub struct SseDecoder {
    /// The undecoded residue.
    pub buffer: String,
}

/// The value one complete line yields at runtime.
fn sse_line_val_exec(line: &Vec<char>) -> (r: Option<JsonValue>)
    ensures
        match r {
            Some(v) => sse_line_val(line@) == Some(v@),
            None => sse_line_val(line@) is None,
        },
{
    proof {
        reveal_strlit("event:");
        reveal_strlit("data: ");
        reveal_strlit("data:");
        reveal_strlit("[DONE]");
    }
    let t = trim_chars(line);
    let tn = t.len();
    if tn == 0 {
        return None;
    }
    let ev = chars_of("event:");
    if ev.len() <= tn && crate::text::matches_at(&t, &ev, 0) {
        return None;
    }
    let dsp = chars_of("data: ");
    let dp = chars_of("data:");
    let d: Vec<char> = if dsp.len() <= tn && crate::text::matches_at(&t, &dsp, 0) {
        let tail = slice_range(&t, 6, tn);
        trim_chars(&tail)
    } else if dp.len() <= tn && crate::text::matches_at(&t, &dp, 0) {
        let tail = slice_range(&t, 5, tn);
        trim_chars(&tail)
    } else {
        Vec::new()
    };
    proof {
        if !match_at(t@, "data: "@, 0) && !match_at(t@, "data:"@, 0) {
            assert(d@ =~= Seq::<char>::empty());
        }
    }
    if d.len() == 0 {
        return None;
    }
    let done = chars_of("[DONE]");
    if d.len() == done.len() && crate::text::matches_at(&d, &done, 0) {
        proof {
            assert(d@.subrange(0, d@.len() as int) =~= d@);
        }
        return None;
    }
    proof {
        assert(d@.subrange(0, d@.len() as int) =~= d@);
    }
    let ds = string_of(&d);
    parse_json_text(ds.as_str())
}

impl SseDecoder {
    /// A new empty decoder.
    pub fn new() -> (r: SseDecoder)
        ensures
            r.buffer@ == Seq::<char>::empty(),
    {
        SseDecoder { buffer: String::new() }
    }

    /// Feed raw bytes and collect the values of every line that is now
    /// complete.
    #[verifier::loop_isolation(false)]
    pub fn decode(&mut self, chunk: &[u8]) -> (r: Vec<JsonValue>)
        ensures
            r@.map_values(|v: JsonValue| v@) == sse_out(
                old(self).buffer@ + utf8_lossy_of(chunk@),
            ),
            final(self).buffer@ == ndjson_rest(old(self).buffer@ + utf8_lossy_of(chunk@)),
    {
        let text = utf8_lossy(chunk);
        vstd::string::StringExecFns::append(&mut self.buffer, text.as_str());
        let ghost full = self.buffer@;
        let mut cs = chars_of(self.buffer.as_str());
        let mut values: Vec<JsonValue> = Vec::new();
        loop
            invariant
                sse_out(full) == values@.map_values(|v: JsonValue| v@) + sse_out(cs@),
                ndjson_rest(full) == ndjson_rest(cs@),
            decreases cs@.len(),
        {
            let m = cs.len();
            match crate::text::find_char_from(&cs, '\n', 0) {
                Some(p) => {
                    proof {
                        crate::output_parser::extract::lemma_find_from_singleton_some(
                            cs@,
                            '\n',
                            0,
                            p as int,
                        );
                    }
                    let line = slice_range(&cs, 0, p + 1);
                    match sse_line_val_exec(&line) {
                        Some(v) => {
                            values.push(v);
                            proof {
                                assert(values@.map_values(|v: JsonValue| v@)
                                    =~= values@.map_values(|v: JsonValue| v@).subrange(
                                    0,
                                    values@.len() - 1,
                                ).push(values@.last()@));
                            }
                        }
                        None => {}
                    }
                    let tail = slice_range(&cs, p + 1, m);
                    proof {
                        assert(sse_out(full) =~= values@.map_values(|v: JsonValue| v@)
                            + sse_out(cs@.subrange(p + 1, m as int)));
                    }
                    cs = tail;
                }
                None => {
                    proof {
                        crate::output_parser::extract::lemma_find_from_singleton_none(
                            cs@,
                            '\n',
                            0,
                        );
                        assert(sse_out(cs@) =~= Seq::<JsonV>::empty());
                        assert(sse_out(full) =~= values@.map_values(|v: JsonValue| v@));
                    }
                    break;
                }
            }
        }
        self.buffer = string_of(&cs);
        values
    }

    /// Flush the residue: every remaining line, the final fragment
    /// included, is tried as a data line.
    #[verifier::loop_isolation(false)]
    pub fn flush(&mut self) -> (r: Vec<JsonValue>)
        ensures
            final(self).buffer@ == Seq::<char>::empty(),
            r@.map_values(|v: JsonValue| v@) == sse_flush_out(trim_spec(old(self).buffer@)),
    {
        let cs = chars_of(self.buffer.as_str());
        let t = trim_chars(&cs);
        self.buffer = String::new();
        let ghost full = t@;
        let mut values: Vec<JsonValue> = Vec::new();
        let mut rest = t;
        loop
            invariant
                sse_flush_out(full) == values@.map_values(|v: JsonValue| v@) + sse_flush_out(
                    rest@,
                ),
            decreases rest@.len(),
        {
            let m = rest.len();
            if m == 0 {
                proof {
                    assert(sse_flush_out(rest@) =~= Seq::<JsonV>::empty());
                    assert(sse_flush_out(full) =~= values@.map_values(|v: JsonValue| v@));
                }
                break;
            }
            match crate::text::find_char_from(&rest, '\n', 0) {
                Some(p) => {
                    proof {
                        crate::output_parser::extract::lemma_find_from_singleton_some(
                            rest@,
                            '\n',
                            0,
                            p as int,
                        );
                    }
                    let line = slice_range(&rest, 0, p);
                    match sse_line_val_exec(&line) {
                        Some(v) => {
                            values.push(v);
                            proof {
                                assert(values@.map_values(|v: JsonValue| v@)
                                    =~= values@.map_values(|v: JsonValue| v@).subrange(
                                    0,
                                    values@.len() - 1,
                                ).push(values@.last()@));
                            }
                        }
                        None => {}
                    }
                    let tail = slice_range(&rest, p + 1, m);
                    proof {
                        assert(sse_flush_out(full) =~= values@.map_values(|v: JsonValue| v@)
                            + sse_flush_out(rest@.subrange(p + 1, m as int)));
                    }
                    rest = tail;
                }
                None => {
                    proof {
                        crate::output_parser::extract::lemma_find_from_singleton_none(
                            rest@,
                            '\n',
                            0,
                        );
                    }
                    match sse_line_val_exec(&rest) {
                        Some(v) => {
                            values.push(v);
                            proof {
                                assert(values@.map_values(|v: JsonValue| v@)
                                    =~= values@.map_values(|v: JsonValue| v@).subrange(
                                    0,
                                    values@.len() - 1,
                                ).push(values@.last()@));
                            }
                        }
                        None => {}
                    }
                    proof {
                        assert(sse_flush_out(full) =~= values@.map_values(
                            |v: JsonValue| v@,
                        ));
                    }
                    break;
                }
            }
        }
        values
    }
}

} // verus!
