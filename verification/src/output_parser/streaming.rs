//! Streaming JSON completion: close unterminated strings and delimiters
//! of a truncated JSON prefix, trim dangling tokens, and accept the result
//! only when it parses. A progressive parser caches the last good value.

use vstd::prelude::*;
use crate::text::{chars_of, is_ws, string_of, trim_spec, ws_suffix};
use crate::json::{json_parse_ok, json_tree_of, parse_json_text};
use crate::jsonval::{JsonValue, JsonV};
use crate::output_parser::extract::{strip_think_spec, strip_think_tags};

verus! {

/// `s` without trailing ASCII whitespace.
pub open spec fn trim_end_spec(s: Seq<char>) -> Seq<char> {
    s.subrange(0, s.len() - ws_suffix(s))
}

/// The last index of `c` in `s`, if any.
pub open spec fn rfind_char(s: Seq<char>, c: char) -> Option<int>
    decreases s.len(),
{
    if s.len() == 0 {
        None
    } else if s.last() == c {
        Some(s.len() - 1)
    } else {
        rfind_char(s.drop_last(), c)
    }
}

/// A found index lies inside the text and holds the character.
pub proof fn lemma_rfind_char(s: Seq<char>, c: char)
    requires
        rfind_char(s, c) is Some,
    ensures
        0 <= rfind_char(s, c)->Some_0 < s.len(),
        s[rfind_char(s, c)->Some_0] == c,
    decreases s.len(),
{
    if s.len() > 0 && s.last() != c {
        lemma_rfind_char(s.drop_last(), c);
    }
}

/// The delimiter scan: the stack of expected closers (top last) and the
/// inside-string and escape flags after reading `s` from position `i`.
pub open spec fn scan_state(
    s: Seq<char>,
    i: int,
    stack: Seq<char>,
    in_str: bool,
    esc: bool,
) -> (Seq<char>, bool, bool)
    decreases s.len() - i
        when 0 <= i
{
    if i >= s.len() {
        (stack, in_str, esc)
    } else {
        let c = s[i];
        if esc {
            scan_state(s, i + 1, stack, in_str, false)
        } else if c == '\\' && in_str {
            scan_state(s, i + 1, stack, in_str, true)
        } else if c == '"' {
            scan_state(s, i + 1, stack, !in_str, false)
        } else if in_str {
            scan_state(s, i + 1, stack, in_str, esc)
        } else if c == '{' {
            scan_state(s, i + 1, stack.push('}'), in_str, esc)
        } else if c == '[' {
            scan_state(s, i + 1, stack.push(']'), in_str, esc)
        } else if c == '}' || c == ']' {
            if stack.len() > 0 && stack.last() == c {
                scan_state(s, i + 1, stack.drop_last(), in_str, esc)
            } else {
                scan_state(s, i + 1, stack, in_str, esc)
            }
        } else {
            scan_state(s, i + 1, stack, in_str, esc)
        }
    }
}

/// The iterated tail trimming: drop a trailing comma, or a dangling
/// quoted key with its colon (and the comma before it), until stable.
pub open spec fn trim_tail_spec(r: Seq<char>) -> Seq<char>
    decreases r.len()
        via Self_trim_tail_decreases
{
    let t = trim_end_spec(r);
    if t.len() > 0 && t.last() == ',' {
        trim_tail_spec(t.drop_last())
    } else if t.len() > 0 && t.last() == ':' {
        let wc = trim_end_spec(t.drop_last());
        match rfind_char(wc, '"') {
            Some(q) => match rfind_char(wc.subrange(0, q), '"') {
                Some(o) => {
                    let bk = trim_end_spec(wc.subrange(0, o));
                    if bk.len() > 0 && bk.last() == ',' {
                        trim_tail_spec(bk.drop_last())
                    } else {
                        trim_tail_spec(bk)
                    }
                },
                None => r,
            },
            None => r,
        }
    } else {
        r
    }
}

#[via_fn]
proof fn Self_trim_tail_decreases(r: Seq<char>) {
    crate::text::lemma_ws_suffix(r);
    let t = trim_end_spec(r);
    if t.len() > 0 && t.last() == ':' {
        crate::text::lemma_ws_suffix(t.drop_last());
        let wc = trim_end_spec(t.drop_last());
        match rfind_char(wc, '"') {
            Some(q) => {
                lemma_rfind_char(wc, '"');
                match rfind_char(wc.subrange(0, q), '"') {
                    Some(o) => {
                        lemma_rfind_char(wc.subrange(0, q), '"');
                        crate::text::lemma_ws_suffix(wc.subrange(0, o));
                    },
                    None => {},
                }
            },
            None => {},
        }
    }
}

/// The orphan-key fix: inside an object, a trailing quoted string with no
/// colon after it is removed together with the comma before it.
pub open spec fn orphan_fix_spec(r: Seq<char>, stack: Seq<char>) -> Seq<char> {
    if stack.len() > 0 && stack.last() == '}' {
        let t = trim_end_spec(r);
        if t.len() > 0 && t.last() == '"' && !(t.len() >= 2 && t[t.len() - 2] == '\\') {
            let inner = t.drop_last();
            match rfind_char(inner, '"') {
                Some(o) => {
                    let before = trim_end_spec(inner.subrange(0, o));
                    if before.len() > 0 && before.last() == ',' {
                        before.drop_last()
                    } else {
                        r
                    }
                },
                None => r,
            }
        } else {
            r
        }
    } else {
        r
    }
}

/// The stack's closers, last pushed first.
pub open spec fn rev_seq(s: Seq<char>) -> Seq<char>
    decreases s.len(),
{
    if s.len() == 0 {
        Seq::empty()
    } else {
        seq![s.last()] + rev_seq(s.drop_last())
    }
}

/// What [`auto_complete_json`] computes: reasoning stripped, the text
/// trimmed, the already-valid text returned as is; otherwise, for a text
/// that starts like JSON, an unterminated string is closed, dangling
/// tokens are trimmed, the open delimiters are closed, and the result is
/// kept only when it parses.
pub open spec fn complete_spec(s: Seq<char>) -> Option<Seq<char>> {
    let t = trim_spec(strip_think_spec(s));
    if t.len() == 0 {
        None
    } else if json_parse_ok(t) {
        Some(t)
    } else if t[0] != '{' && t[0] != '[' {
        None
    } else {
        let st = scan_state(t, 0, Seq::empty(), false, false);
        let base = if st.1 {
            t.push('"')
        } else {
            t
        };
        let trimmed = trim_tail_spec(base);
        let fixed = orphan_fix_spec(trimmed, st.0);
        let candidate = fixed + rev_seq(st.0);
        if json_parse_ok(candidate) {
            Some(candidate)
        } else {
            None
        }
    }
}

/// `s` without trailing ASCII whitespace, as a fresh vector.
#[verifier::loop_isolation(false)]
fn trim_end_chars(s: &Vec<char>) -> (r: Vec<char>)
    ensures
        r@ == trim_end_spec(s@),
{
    let n = s.len();
    proof {
        crate::text::lemma_ws_suffix(s@);
    }
    let mut b: usize = n;
    while b > 0 && crate::text::ws(s[b - 1])
        invariant
            0 <= b <= n,
            n == s@.len(),
            forall|j: int| b <= j < n ==> is_ws(s@[j]),
        decreases b,
    {
        b = b - 1;
    }
    proof {
        if b == 0 {
            crate::text::lemma_ws_prefix(s@);
            lemma_ws_suffix_all(s@, 0);
        } else {
            lemma_ws_suffix_from(s@, b as int);
        }
    }
    crate::text::slice_range(s, 0, b)
}

/// A trailing whitespace run of length `n - b` preceded by a
/// non-whitespace character fixes the whitespace suffix.
proof fn lemma_ws_suffix_from(s: Seq<char>, b: int)
    requires
        0 < b <= s.len(),
        !is_ws(s[b - 1]),
        forall|j: int| b <= j < s.len() ==> is_ws(s[j]),
    ensures
        ws_suffix(s) == s.len() - b,
    decreases s.len(),
{
    if b < s.len() {
        lemma_ws_suffix_from(s.drop_last(), b);
        assert(forall|j: int| 0 <= j < s.len() - 1 ==> s.drop_last()[j] == s[j]);
    }
}

/// A text of nothing but whitespace has itself as whitespace suffix.
proof fn lemma_ws_suffix_all(s: Seq<char>, b: int)
    requires
        b == 0,
        forall|j: int| b <= j < s.len() ==> is_ws(s[j]),
    ensures
        ws_suffix(s) == s.len(),
    decreases s.len(),
{
    if s.len() > 0 {
        lemma_ws_suffix_all(s.drop_last(), 0);
        assert(forall|j: int| 0 <= j < s.len() - 1 ==> s.drop_last()[j] == s[j]);
    }
}

/// The last index of `c` in `s`, if any.
#[verifier::loop_isolation(false)]
fn rfind_char_exec(s: &Vec<char>, c: char) -> (r: Option<usize>)
    ensures
        match r {
            Some(i) => rfind_char(s@, c) == Some(i as int) && i < s@.len(),
            None => rfind_char(s@, c) is None,
        },
{
    let n = s.len();
    let mut b: usize = n;
    proof {
        assert(s@.subrange(0, n as int) =~= s@);
    }
    while b > 0
        invariant
            0 <= b <= n,
            n == s@.len(),
            rfind_char(s@, c) == rfind_char(s@.subrange(0, b as int), c),
        decreases b,
    {
        proof {
            let pre = s@.subrange(0, b as int);
            assert(pre.last() == s@[b - 1]);
            assert(pre.drop_last() =~= s@.subrange(0, b - 1));
        }
        if s[b - 1] == c {
            return Some(b - 1);
        }
        b = b - 1;
    }
    proof {
        assert(s@.subrange(0, 0) =~= Seq::<char>::empty());
    }
    None
}

/// Auto-complete a truncated JSON string by closing unclosed strings,
/// braces and brackets; dangling tokens before a closer are trimmed.
/// Returns the completed text only when it parses.
#[verifier::loop_isolation(false)]
#[verifier::rlimit(60)]
pub fn auto_complete_json(input: &str) -> (r: Option<String>)
    ensures
        match r {
            Some(t) => complete_spec(input@) == Some(t@) && json_parse_ok(t@),
            None => complete_spec(input@) is None,
        },
{
    let cleaned = strip_think_tags(input);
    let cs = chars_of(cleaned.as_str());
    let trimmed = crate::text::trim_chars(&cs);
    let t = string_of(&trimmed);
    let n = trimmed.len();
    if n == 0 {
        return None;
    }
    if crate::json::text_parses(t.as_str()) {
        return Some(t);
    }
    if trimmed[0] != '{' && trimmed[0] != '[' {
        return None;
    }
    // Delimiter scan.
    let mut stack: Vec<char> = Vec::new();
    let mut in_str = false;
    let mut esc = false;
    let mut i: usize = 0;
    while i < n
        invariant
            n == trimmed@.len(),
            0 <= i <= n,
            scan_state(trimmed@, 0, Seq::empty(), false, false) == scan_state(
                trimmed@,
                i as int,
                stack@,
                in_str,
                esc,
            ),
        decreases n - i,
    {
        let c = trimmed[i];
        if esc {
            esc = false;
        } else if c == '\\' && in_str {
            esc = true;
        } else if c == '"' {
            in_str = !in_str;
        } else if in_str {
        } else if c == '{' {
            stack.push('}');
        } else if c == '[' {
            stack.push(']');
        } else if c == '}' || c == ']' {
            if stack.len() > 0 && stack[stack.len() - 1] == c {
                let ghost pre = stack@;
                let _ = stack.pop();
                proof {
                    assert(stack@ =~= pre.drop_last());
                }
            }
        }
        i = i + 1;
    }
    let ghost st = scan_state(trimmed@, 0, Seq::empty(), false, false);
    proof {
        assert(st == (stack@, in_str, esc));
    }
    let mut result = trimmed;
    if in_str {
        result.push('"');
    }
    let ghost base = result@;
    // Iterated tail trimming.
    loop
        invariant
            trim_tail_spec(result@) == trim_tail_spec(base),
        decreases result@.len(),
    {
        let ghost prev = result@;
        let te = trim_end_chars(&result);
        let m = te.len();
        proof {
            crate::text::lemma_ws_suffix(prev);
        }
        if m > 0 && te[m - 1] == ',' {
            proof {
                assert(te@.drop_last() =~= te@.subrange(0, m - 1));
            }
            result = crate::text::slice_range(&te, 0, m - 1);
            proof {
                assert(trim_tail_spec(prev) == trim_tail_spec(result@));
            }
        } else if m > 0 && te[m - 1] == ':' {
            proof {
                assert(te@.drop_last() =~= te@.subrange(0, m - 1));
            }
            let head = crate::text::slice_range(&te, 0, m - 1);
            let wc = trim_end_chars(&head);
            proof {
                crate::text::lemma_ws_suffix(head@);
            }
            match rfind_char_exec(&wc, '"') {
                Some(q) => {
                    let wq = crate::text::slice_range(&wc, 0, q);
                    match rfind_char_exec(&wq, '"') {
                        Some(o) => {
                            let wo = crate::text::slice_range(&wq, 0, o);
                            proof {
                                assert(wq@.subrange(0, o as int) =~= wc@.subrange(0, o as int));
                            }
                            let bk = trim_end_chars(&wo);
                            proof {
                                crate::text::lemma_ws_suffix(wo@);
                            }
                            let bl = bk.len();
                            if bl > 0 && bk[bl - 1] == ',' {
                                proof {
                                    assert(bk@.drop_last() =~= bk@.subrange(0, bl - 1));
                                }
                                result = crate::text::slice_range(&bk, 0, bl - 1);
                            } else {
                                result = bk;
                            }
                            proof {
                                assert(result@.len() < prev.len());
                                assert(trim_tail_spec(prev) == trim_tail_spec(result@));
                            }
                        }
                        None => {
                            proof {
                                assert(trim_tail_spec(prev) == prev);
                            }
                            break;
                        }
                    }
                }
                None => {
                    proof {
                        assert(trim_tail_spec(prev) == prev);
                    }
                    break;
                }
            }
        } else {
            proof {
                assert(trim_tail_spec(prev) == prev);
            }
            break;
        }
    }
    proof {
        assert(result@ == trim_tail_spec(base));
    }
    // Orphan-key fix.
    let ghost before_orphan = result@;
    let slen = stack.len();
    if slen > 0 && stack[slen - 1] == '}' {
        let te = trim_end_chars(&result);
        let m = te.len();
        if m > 0 && te[m - 1] == '"' && !(m >= 2 && te[m - 2] == '\\') {
            proof {
                assert(te@.drop_last() =~= te@.subrange(0, m - 1));
            }
            let inner = crate::text::slice_range(&te, 0, m - 1);
            match rfind_char_exec(&inner, '"') {
                Some(o) => {
                    let io = crate::text::slice_range(&inner, 0, o);
                    let before = trim_end_chars(&io);
                    let bl = before.len();
                    if bl > 0 && before[bl - 1] == ',' {
                        proof {
                            assert(before@.drop_last() =~= before@.subrange(0, bl - 1));
                        }
                        result = crate::text::slice_range(&before, 0, bl - 1);
                    }
                }
                None => {}
            }
        }
    }
    proof {
        assert(result@ == orphan_fix_spec(before_orphan, st.0));
    }
    // Close every open delimiter, innermost first.
    let ghost fixed = result@;
    let mut k = stack.len();
    while k > 0
        invariant
            0 <= k <= stack@.len(),
            result@ == fixed + rev_seq(stack@.subrange(k as int, stack@.len() as int)),
        decreases k,
    {
        proof {
            lemma_rev_push(stack@, k - 1);
        }
        result.push(stack[k - 1]);
        k = k - 1;
    }
    proof {
        assert(stack@.subrange(0, stack@.len() as int) =~= stack@);
        assert(result@ == fixed + rev_seq(stack@));
    }
    let out = string_of(&result);
    if crate::json::text_parses(out.as_str()) {
        Some(out)
    } else {
        None
    }
}

/// Progressive JSON parser for streaming LLM output: accumulates text and
/// caches the last successful parse, trying auto-completion when direct
/// parsing fails.
pub struct StreamingJsonParser {
    /// The raw accumulated text.
    pub buffer: String,
    /// The last successfully parsed value, if any.
    pub cached_value: Option<JsonValue>,
    /// The buffer length at the last parse attempt.
    pub last_parsed_len: usize,
}

/// The value the parser's cache takes after one parse attempt on `buf`,
/// starting from `prior`.
pub open spec fn reparse_spec(buf: Seq<char>, prior: Option<JsonValue>) -> Option<JsonV> {
    if json_parse_ok(trim_spec(buf)) {
        Some(json_tree_of(trim_spec(buf))->Some_0)
    } else if complete_spec(trim_spec(buf)) is Some && json_parse_ok(
        complete_spec(trim_spec(buf))->Some_0,
    ) {
        Some(json_tree_of(complete_spec(trim_spec(buf))->Some_0)->Some_0)
    } else {
        match prior {
            Some(v) => Some(v@),
            None => None,
        }
    }
}

impl StreamingJsonParser {
    /// A new empty streaming parser.
    pub fn new() -> (r: StreamingJsonParser)
        ensures
            r.buffer@ == Seq::<char>::empty(),
            r.cached_value is None,
            r.last_parsed_len == 0,
    {
        StreamingJsonParser { buffer: String::new(), cached_value: None, last_parsed_len: 0 }
    }

    /// Append new text to the buffer and attempt to parse. With nothing
    /// appended the previous state stands; otherwise the cache holds the
    /// direct parse, or the auto-completed parse, or its prior value.
    pub fn push(&mut self, text: &str)
        ensures
            final(self).buffer@ == old(self).buffer@ + text@,
            final(self).buffer@.len() == old(self).last_parsed_len ==> final(self).cached_value
                == old(self).cached_value,
            final(self).buffer@.len() != old(self).last_parsed_len ==> match final(self).cached_value {
                Some(v) => reparse_spec(final(self).buffer@, old(self).cached_value) == Some(v@),
                None => reparse_spec(final(self).buffer@, old(self).cached_value) is None,
            },
    {
        vstd::string::StringExecFns::append(&mut self.buffer, text);
        self.try_parse();
    }

    /// The current parsed value, if any.
    pub fn current_value(&self) -> (r: Option<&JsonValue>)
        ensures
            match r {
                Some(v) => self.cached_value == Some(*v),
                None => self.cached_value is None,
            },
    {
        self.cached_value.as_ref()
    }

    /// The raw accumulated text.
    pub fn buffer(&self) -> (r: &str)
        ensures
            r@ == self.buffer@,
    {
        self.buffer.as_str()
    }

    /// Reset the parser to its initial state.
    pub fn clear(&mut self)
        ensures
            final(self).buffer@ == Seq::<char>::empty(),
            final(self).cached_value is None,
            final(self).last_parsed_len == 0,
    {
        self.buffer = String::new();
        self.cached_value = None;
        self.last_parsed_len = 0;
    }

    /// One parse attempt over the current buffer, skipped when nothing
    /// has changed since the last one.
    fn try_parse(&mut self)
        ensures
            final(self).buffer == old(self).buffer,
            old(self).buffer@.len() == old(self).last_parsed_len ==> final(self).cached_value
                == old(self).cached_value,
            old(self).buffer@.len() != old(self).last_parsed_len ==> match final(self).cached_value {
                Some(v) => reparse_spec(old(self).buffer@, old(self).cached_value) == Some(v@),
                None => reparse_spec(old(self).buffer@, old(self).cached_value) is None,
            },
    {
        let len = self.buffer.as_str().unicode_len();
        if len == self.last_parsed_len {
            return;
        }
        let cs = chars_of(self.buffer.as_str());
        let trimmed_v = crate::text::trim_chars(&cs);
        let trimmed = string_of(&trimmed_v);
        match parse_json_text(trimmed.as_str()) {
            Some(v) => {
                self.cached_value = Some(v);
                self.last_parsed_len = len;
                return;
            }
            None => {}
        }
        match auto_complete_json(trimmed.as_str()) {
            Some(completed) => {
                match parse_json_text(completed.as_str()) {
                    Some(v) => {
                        self.cached_value = Some(v);
                    }
                    None => {}
                }
            }
            None => {}
        }
        self.last_parsed_len = len;
    }
}

/// Reversing a sequence with one more element in front appends that
/// element at the back.
proof fn lemma_rev_cons(x: char, t: Seq<char>)
    ensures
        rev_seq(seq![x] + t) == rev_seq(t).push(x),
    decreases t.len(),
{
    let u = seq![x] + t;
    if t.len() == 0 {
        assert(u =~= seq![x]);
        assert(u.drop_last() =~= Seq::<char>::empty());
        assert(rev_seq(Seq::<char>::empty()) =~= Seq::<char>::empty());
        assert(t =~= Seq::<char>::empty());
        assert(rev_seq(u) =~= rev_seq(t).push(x));
    } else {
        assert(u.last() == t.last());
        assert(u.drop_last() =~= seq![x] + t.drop_last());
        lemma_rev_cons(x, t.drop_last());
        assert(rev_seq(u) == seq![t.last()] + rev_seq(t.drop_last()).push(x));
        assert(seq![t.last()] + rev_seq(t.drop_last()).push(x) =~= (seq![t.last()] + rev_seq(
            t.drop_last(),
        )).push(x));
    }
}

/// Splitting the reversal one element earlier appends that element.
proof fn lemma_rev_push(s: Seq<char>, k: int)
    requires
        0 <= k < s.len(),
    ensures
        rev_seq(s.subrange(k, s.len() as int)) == rev_seq(s.subrange(k + 1, s.len() as int)).push(
            s[k],
        ),
{
    assert(s.subrange(k, s.len() as int) =~= seq![s[k]] + s.subrange(k + 1, s.len() as int));
    lemma_rev_cons(s[k], s.subrange(k + 1, s.len() as int));
}

} // verus!
