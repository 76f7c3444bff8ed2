//! Choice extraction: find one of a set of valid options in a model
//! response, tolerating punctuation, quoting, bold markers and prose.

use vstd::prelude::*;
use crate::text::{
    chars_of, is_alnum, is_ws, lower_char, match_at, string_of, trim_chars, trim_spec,
};
use crate::output_parser::extract::{lower_seq, preprocess_spec, preprocess};
use crate::output_parser::error::ParseError;

verus! {

/// Characters trimmed from the ends before exact matching.
pub open spec fn is_choice_punct(c: char) -> bool {
    c == '.' || c == '!' || c == ',' || is_ws(c)
}

/// Length of the leading run of characters satisfying `p`.
pub open spec fn run_prefix(s: Seq<char>, p: spec_fn(char) -> bool) -> int
    decreases s.len(),
{
    if s.len() > 0 && p(s[0]) {
        1 + run_prefix(s.drop_first(), p)
    } else {
        0
    }
}

/// Length of the trailing run of characters satisfying `p`.
pub open spec fn run_suffix(s: Seq<char>, p: spec_fn(char) -> bool) -> int
    decreases s.len(),
{
    if s.len() > 0 && p(s.last()) {
        1 + run_suffix(s.drop_last(), p)
    } else {
        0
    }
}

/// `s` without leading and trailing characters satisfying `p`.
pub open spec fn trim_pred(s: Seq<char>, p: spec_fn(char) -> bool) -> Seq<char> {
    if run_prefix(s, p) == s.len() {
        Seq::empty()
    } else {
        s.subrange(run_prefix(s, p), s.len() - run_suffix(s, p))
    }
}

/// The run lengths are within bounds; characters inside the runs satisfy
/// `p` and the first characters beyond them do not.
pub proof fn lemma_runs(s: Seq<char>, p: spec_fn(char) -> bool)
    ensures
        0 <= run_prefix(s, p) <= s.len(),
        0 <= run_suffix(s, p) <= s.len(),
        forall|j: int| 0 <= j < run_prefix(s, p) ==> p(s[j]),
        run_prefix(s, p) < s.len() ==> !p(s[run_prefix(s, p)]),
        forall|j: int| s.len() - run_suffix(s, p) <= j < s.len() ==> p(s[j]),
        run_suffix(s, p) < s.len() ==> !p(s[s.len() - run_suffix(s, p) - 1]),
    decreases s.len(),
{
    if s.len() > 0 && p(s[0]) {
        lemma_runs(s.drop_first(), p);
        assert forall|j: int| 0 <= j < run_prefix(s, p) implies p(s[j]) by {
            if j >= 1 {
                assert(p(s.drop_first()[j - 1]));
            }
        }
    }
    if s.len() > 0 && p(s.last()) {
        lemma_runs(s.drop_last(), p);
        let t = s.drop_last();
        assert(forall|j: int| 0 <= j < t.len() ==> t[j] == s[j]);
    }
}

/// `s` without any number of leading copies of `pat`.
pub open spec fn strip_reps_prefix(s: Seq<char>, pat: Seq<char>) -> Seq<char>
    decreases s.len()
        when pat.len() > 0
{
    if match_at(s, pat, 0) {
        strip_reps_prefix(s.subrange(pat.len() as int, s.len() as int), pat)
    } else {
        s
    }
}

/// `s` without any number of trailing copies of `pat`.
pub open spec fn strip_reps_suffix(s: Seq<char>, pat: Seq<char>) -> Seq<char>
    decreases s.len()
        when pat.len() > 0
{
    if s.len() >= pat.len() && match_at(s, pat, s.len() - pat.len()) {
        strip_reps_suffix(s.subrange(0, s.len() - pat.len()), pat)
    } else {
        s
    }
}

/// The wrapper-stripping done before exact matching: end punctuation,
/// bold markers, quotes and parentheses removed, then trimmed.
pub open spec fn stripped_spec(lower: Seq<char>) -> Seq<char> {
    let s1 = trim_pred(lower, |c: char| is_choice_punct(c));
    let s2 = strip_reps_prefix(s1, "**"@);
    let s3 = strip_reps_suffix(s2, "**"@);
    let s4 = trim_pred(s3, |c: char| c == '"');
    let s5 = trim_pred(s4, |c: char| c == '\'');
    let s6 = trim_pred(s5, |c: char| c == '(');
    let s7 = trim_pred(s6, |c: char| c == ')');
    trim_spec(s7)
}

/// The first choice whose lower-cased form equals the stripped text.
pub open spec fn first_exact(stripped: Seq<char>, cs: Seq<Seq<char>>, i: int) -> Option<int>
    decreases cs.len() - i
        when 0 <= i
{
    if i >= cs.len() {
        None
    } else if lower_seq(cs[i]) == lower_seq(stripped) {
        Some(i)
    } else {
        first_exact(stripped, cs, i + 1)
    }
}

/// The first choice the stripped text starts with, at a word boundary.
pub open spec fn first_prefix(stripped: Seq<char>, cs: Seq<Seq<char>>, i: int) -> Option<int>
    decreases cs.len() - i
        when 0 <= i
{
    if i >= cs.len() {
        None
    } else if match_at(stripped, lower_seq(cs[i]), 0) && (cs[i].len() == stripped.len()
        || !is_alnum(stripped[cs[i].len() as int])) {
        Some(i)
    } else {
        first_prefix(stripped, cs, i + 1)
    }
}

/// The first word-boundary occurrence of `nd` in `h` at or after `from`.
pub open spec fn wb_from(h: Seq<char>, nd: Seq<char>, from: int) -> Option<int>
    decreases h.len() - from + 1
        when 0 <= from
{
    if from + nd.len() > h.len() {
        None
    } else if match_at(h, nd, from) && (from == 0 || !is_alnum(h[from - 1])) && (from + nd.len()
        >= h.len() || !is_alnum(h[from + nd.len()])) {
        Some(from)
    } else {
        wb_from(h, nd, from + 1)
    }
}

/// The earliest word-boundary occurrence over all choices, the first
/// choice winning ties.
pub open spec fn best_wb(h: Seq<char>, cs: Seq<Seq<char>>, i: int, best: Option<(int, int)>)
    -> Option<(int, int)>
    decreases cs.len() - i
        when 0 <= i
{
    if i >= cs.len() {
        best
    } else {
        let here = wb_from(h, lower_seq(cs[i]), 0);
        let next = match here {
            Some(pos) => match best {
                None => Some((i, pos)),
                Some(b) => if pos < b.1 {
                    Some((i, pos))
                } else {
                    best
                },
            },
            None => best,
        };
        best_wb(h, cs, i + 1, next)
    }
}

/// The index of the choice [`parse_choice`] selects for a cleaned,
/// non-empty response, if any: exact match first, then prefix match,
/// then earliest word-boundary occurrence.
pub open spec fn choice_index_spec(cleaned: Seq<char>, cs: Seq<Seq<char>>) -> Option<int> {
    let lower = lower_seq(cleaned);
    let stripped = stripped_spec(lower);
    match first_exact(stripped, cs, 0) {
        Some(i) => Some(i),
        None => match first_prefix(stripped, cs, 0) {
            Some(i) => Some(i),
            None => match best_wb(lower, cs, 0, None) {
                Some(b) => Some(b.0),
                None => None,
            },
        },
    }
}

/// A lower-case letter or digit: the alphabet of a plain choice word.
pub open spec fn is_plain_choice_char(c: char) -> bool {
    ('a' <= c && c <= 'z') || ('0' <= c && c <= '9')
}

/// A non-empty word of lower-case letters and digits.
pub open spec fn is_plain_choice(s: Seq<char>) -> bool {
    s.len() > 0 && forall|j: int| 0 <= j < s.len() ==> is_plain_choice_char(s[j])
}

/// Lower-casing leaves an all-lower-case word unchanged.
proof fn lemma_lower_id(s: Seq<char>)
    requires
        forall|j: int| 0 <= j < s.len() ==> is_plain_choice_char(s[j]),
    ensures
        lower_seq(s) == s,
{
    assert(lower_seq(s) =~= s);
}

/// A plain word passes untouched through the wrapper stripping.
proof fn lemma_stripped_id(s: Seq<char>)
    requires
        is_plain_choice(s),
    ensures
        stripped_spec(s) == s,
{
    reveal_strlit("**");
    crate::text::lemma_ws_prefix(s);
    crate::text::lemma_ws_suffix(s);
    assert(!is_choice_punct(s[0]));
    assert(!is_choice_punct(s.last()));
    assert(trim_pred(s, |c: char| is_choice_punct(c)) =~= s);
    assert(!match_at(s, "**"@, 0)) by {
        if match_at(s, "**"@, 0) {
            assert(s.subrange(0, 2)[0] == s[0]);
        }
    }
    assert(strip_reps_prefix(s, "**"@) == s);
    assert(!match_at(s, "**"@, s.len() - 2)) by {
        if s.len() >= 2 && match_at(s, "**"@, s.len() - 2) {
            assert(s.subrange(s.len() - 2, s.len() as int)[0] == s[s.len() - 2]);
        }
    }
    assert(strip_reps_suffix(s, "**"@) == s);
    assert(trim_pred(s, |c: char| c == '"') =~= s);
    assert(trim_pred(s, |c: char| c == '\'') =~= s);
    assert(trim_pred(s, |c: char| c == '(') =~= s);
    assert(trim_pred(s, |c: char| c == ')') =~= s);
    assert(!is_ws(s[0]));
    assert(!is_ws(s.last()));
    assert(crate::text::ws_prefix(s) == 0);
    assert(crate::text::ws_suffix(s) == 0);
    assert(trim_spec(s) =~= s);
}

/// Preprocessing leaves a plain word unchanged: it holds no reasoning
/// tag and no surrounding whitespace.
proof fn lemma_preprocess_plain_id(s: Seq<char>)
    requires
        is_plain_choice(s),
    ensures
        preprocess_spec(s) == s,
{
    reveal_strlit("<think>");
    reveal_strlit("</think>");
    reveal_strlit("<thinking>");
    reveal_strlit("</thinking>");
    assert forall|j: int| 0 <= j implies !match_at(
        s,
        crate::output_parser::extract::think_open(),
        j,
    ) by {
        if match_at(s, crate::output_parser::extract::think_open(), j) {
            assert(s.subrange(j, j + 7)[0] == s[j]);
            assert(s[j] == '<');
        }
    }
    assert(!crate::text::has_sub(s, crate::output_parser::extract::think_open())) by {
        if crate::text::has_sub(s, crate::output_parser::extract::think_open()) {
            let j = choose|j: int|
                0 <= j && match_at(s, crate::output_parser::extract::think_open(), j);
        }
    }
    crate::output_parser::extract::lemma_strip_variant_id(
        s,
        crate::output_parser::extract::think_open(),
        crate::output_parser::extract::think_close(),
    );
    assert forall|j: int| 0 <= j implies !match_at(
        s,
        crate::output_parser::extract::thinking_open(),
        j,
    ) by {
        if match_at(s, crate::output_parser::extract::thinking_open(), j) {
            assert(s.subrange(j, j + 10)[0] == s[j]);
            assert(s[j] == '<');
        }
    }
    assert(!crate::text::has_sub(s, crate::output_parser::extract::thinking_open())) by {
        if crate::text::has_sub(s, crate::output_parser::extract::thinking_open()) {
            let j = choose|j: int|
                0 <= j && match_at(s, crate::output_parser::extract::thinking_open(), j);
        }
    }
    crate::output_parser::extract::lemma_strip_variant_id(
        s,
        crate::output_parser::extract::thinking_open(),
        crate::output_parser::extract::thinking_close(),
    );
    crate::text::lemma_ws_prefix(s);
    crate::text::lemma_ws_suffix(s);
    assert(crate::text::ws_prefix(s) == 0);
    assert(crate::text::ws_suffix(s) == 0);
    assert(trim_spec(s) =~= s);
}

/// The exact-match scan finds exactly the index of the text itself when
/// the choices are distinct plain words.
proof fn lemma_first_exact_at(c: Seq<char>, cs: Seq<Seq<char>>, k: int, i: int)
    requires
        0 <= i <= k < cs.len(),
        c == cs[k],
        forall|x: int| 0 <= x < cs.len() ==> is_plain_choice(#[trigger] cs[x]),
        forall|x: int, y: int| 0 <= x < y < cs.len() ==> cs[x] != cs[y],
    ensures
        first_exact(c, cs, i) == Some(k),
    decreases k - i,
{
    lemma_lower_id(cs[i]);
    lemma_lower_id(c);
    if i < k {
        assert(cs[i] != cs[k]);
        lemma_first_exact_at(c, cs, k, i + 1);
    }
}

/// Giving the choice parser one of its own options hands that option
/// back, whenever the options are distinct plain words of lower-case
/// letters and digits.
pub proof fn lemma_choice_identity(cs: Seq<Seq<char>>, k: int)
    requires
        0 <= k < cs.len(),
        forall|x: int| 0 <= x < cs.len() ==> is_plain_choice(#[trigger] cs[x]),
        forall|x: int, y: int| 0 <= x < y < cs.len() ==> cs[x] != cs[y],
    ensures
        choice_index_spec(preprocess_spec(cs[k]), cs) == Some(k),
{
    lemma_preprocess_plain_id(cs[k]);
    lemma_lower_id(cs[k]);
    lemma_stripped_id(cs[k]);
    lemma_first_exact_at(cs[k], cs, k, 0);
}

/// `s` lower-cased, as a fresh vector.
#[verifier::loop_isolation(false)]
pub fn lower_chars(s: &Vec<char>) -> (r: Vec<char>)
    ensures
        r@ == lower_seq(s@),
{
    let n = s.len();
    let mut out: Vec<char> = Vec::new();
    let mut i: usize = 0;
    while i < n
        invariant
            n == s@.len(),
            i <= n,
            out@.len() == i as int,
            forall|k: int| 0 <= k < i ==> out@[k] == lower_char(s@[k]),
        decreases n - i,
    {
        out.push(crate::text::lower(s[i]));
        i = i + 1;
    }
    proof {
        assert(out@ =~= lower_seq(s@));
    }
    out
}

/// Runtime test for [`is_choice_punct`].
fn punct(c: char) -> (r: bool)
    ensures
        r == is_choice_punct(c),
{
    c == '.' || c == '!' || c == ',' || crate::text::ws(c)
}

/// Trim punctuation from both ends (the concrete instance of
/// [`trim_pred`] used for choices).
#[verifier::loop_isolation(false)]
fn trim_punct(s: &Vec<char>) -> (r: Vec<char>)
    ensures
        r@ == trim_pred(s@, |c: char| is_choice_punct(c)),
{
    let ghost p = |c: char| is_choice_punct(c);
    proof {
        lemma_runs(s@, p);
    }
    let n = s.len();
    let mut a: usize = 0;
    while a < n && punct(s[a])
        invariant
            0 <= a <= n,
            forall|j: int| 0 <= j < a ==> p(s@[j]),
        decreases n - a,
    {
        a = a + 1;
    }
    if a == n {
        proof {
            lemma_run_prefix_full(s@, p);
        }
        let r: Vec<char> = Vec::new();
        return r;
    }
    let mut b: usize = n;
    while b > a && punct(s[b - 1])
        invariant
            a <= b <= n,
            forall|j: int| b <= j < n ==> p(s@[j]),
        decreases b,
    {
        b = b - 1;
    }
    proof {
        lemma_run_prefix_exact(s@, p, a as int);
        lemma_run_suffix_exact(s@, p, (n - b) as int);
    }
    crate::text::slice_range(s, a, b)
}

/// Trim one specific character from both ends.
#[verifier::loop_isolation(false)]
pub fn trim_one(s: &Vec<char>, c0: char) -> (r: Vec<char>)
    ensures
        r@ == trim_pred(s@, |c: char| c == c0),
{
    let ghost p = |c: char| c == c0;
    proof {
        lemma_runs(s@, p);
    }
    let n = s.len();
    let mut a: usize = 0;
    while a < n && s[a] == c0
        invariant
            0 <= a <= n,
            forall|j: int| 0 <= j < a ==> p(s@[j]),
        decreases n - a,
    {
        a = a + 1;
    }
    if a == n {
        proof {
            lemma_run_prefix_full(s@, p);
        }
        let r: Vec<char> = Vec::new();
        return r;
    }
    let mut b: usize = n;
    while b > a && s[b - 1] == c0
        invariant
            a <= b <= n,
            forall|j: int| b <= j < n ==> p(s@[j]),
        decreases b,
    {
        b = b - 1;
    }
    proof {
        lemma_run_prefix_exact(s@, p, a as int);
        lemma_run_suffix_exact(s@, p, (n - b) as int);
    }
    crate::text::slice_range(s, a, b)
}

/// An all-matching text is its own matching prefix.
proof fn lemma_run_prefix_full(s: Seq<char>, p: spec_fn(char) -> bool)
    requires
        forall|j: int| 0 <= j < s.len() ==> p(s[j]),
    ensures
        run_prefix(s, p) == s.len(),
    decreases s.len(),
{
    if s.len() > 0 {
        lemma_run_prefix_full(s.drop_first(), p);
    }
}

/// A matching run of length `k` followed by a non-matching character is
/// exactly the matching prefix.
proof fn lemma_run_prefix_exact(s: Seq<char>, p: spec_fn(char) -> bool, k: int)
    requires
        0 <= k < s.len(),
        forall|j: int| 0 <= j < k ==> p(s[j]),
        !p(s[k]),
    ensures
        run_prefix(s, p) == k,
    decreases s.len(),
{
    if k > 0 {
        lemma_run_prefix_exact(s.drop_first(), p, k - 1);
    }
}

/// The mirror of [`lemma_run_prefix_exact`] for the suffix.
proof fn lemma_run_suffix_exact(s: Seq<char>, p: spec_fn(char) -> bool, k: int)
    requires
        0 <= k < s.len(),
        forall|j: int| s.len() - k <= j < s.len() ==> p(s[j]),
        !p(s[s.len() - k - 1]),
    ensures
        run_suffix(s, p) == k,
    decreases s.len(),
{
    if k > 0 {
        let t = s.drop_last();
        assert(forall|j: int| 0 <= j < t.len() ==> t[j] == s[j]);
        lemma_run_suffix_exact(t, p, k - 1);
    }
}

/// Strip repeated leading copies of `pat`.
#[verifier::loop_isolation(false)]
fn strip_reps_prefix_exec(s: &Vec<char>, pat: &Vec<char>) -> (r: Vec<char>)
    requires
        pat@.len() > 0,
    ensures
        r@ == strip_reps_prefix(s@, pat@),
{
    let n = s.len();
    let mut cur = crate::text::slice_range(s, 0, n);
    proof {
        assert(s@.subrange(0, n as int) =~= s@);
    }
    loop
        invariant
            strip_reps_prefix(cur@, pat@) == strip_reps_prefix(s@, pat@),
        decreases cur@.len(),
    {
        let m = cur.len();
        if pat.len() <= m && crate::text::matches_at(&cur, pat, 0) {
            cur = crate::text::slice_range(&cur, pat.len(), m);
        } else {
            proof {
                assert(!match_at(cur@, pat@, 0));
            }
            return cur;
        }
    }
}

/// Strip repeated trailing copies of `pat`.
#[verifier::loop_isolation(false)]
fn strip_reps_suffix_exec(s: &Vec<char>, pat: &Vec<char>) -> (r: Vec<char>)
    requires
        pat@.len() > 0,
    ensures
        r@ == strip_reps_suffix(s@, pat@),
{
    let n = s.len();
    let mut cur = crate::text::slice_range(s, 0, n);
    proof {
        assert(s@.subrange(0, n as int) =~= s@);
    }
    loop
        invariant
            strip_reps_suffix(cur@, pat@) == strip_reps_suffix(s@, pat@),
        decreases cur@.len(),
    {
        let m = cur.len();
        if pat.len() <= m && crate::text::matches_at(&cur, pat, m - pat.len()) {
            cur = crate::text::slice_range(&cur, 0, m - pat.len());
        } else {
            return cur;
        }
    }
}

/// Extract a single choice from a set of valid options; matching is
/// ASCII-case-insensitive, and when several valid choices occur in the
/// text, the earliest occurrence wins.
#[verifier::loop_isolation(false)]
#[verifier::rlimit(60)]
pub fn parse_choice(response: &str, valid_choices: &Vec<String>) -> (r: Result<
    String,
    ParseError,
>)
    ensures
        preprocess_spec(response@).len() == 0 <==> (r == Err::<String, ParseError>(
            ParseError::EmptyResponse,
        )),
        preprocess_spec(response@).len() > 0 ==> match choice_index_spec(
            preprocess_spec(response@),
            valid_choices@.map_values(|x: String| x@),
        ) {
            Some(i) => r matches Ok(t) && t@ == valid_choices@[i]@,
            None => r matches Err(e) && e matches ParseError::NoMatchingChoice { valid }
                && valid@.map_values(|x: String| x@) == valid_choices@.map_values(
                |x: String| x@,
            ),
        },
{
    let ghost cs = valid_choices@.map_values(|x: String| x@);
    let cleaned_s = preprocess(response);
    let cleaned = chars_of(cleaned_s.as_str());
    if cleaned.len() == 0 {
        return Err(ParseError::EmptyResponse);
    }
    let lower = lower_chars(&cleaned);
    let s1 = trim_punct(&lower);
    let stars = chars_of("**");
    proof {
        reveal_strlit("**");
    }
    let s2 = strip_reps_prefix_exec(&s1, &stars);
    let s3 = strip_reps_suffix_exec(&s2, &stars);
    let s4 = trim_one(&s3, '"');
    let s5 = trim_one(&s4, '\'');
    let s6 = trim_one(&s5, '(');
    let s7 = trim_one(&s6, ')');
    let stripped = trim_chars(&s7);
    let ghost strippedv = stripped_spec(lower@);
    proof {
        assert(stripped@ == strippedv);
    }
    let ncs = valid_choices.len();

    // Exact match on the stripped text.
    let stripped_low = lower_chars(&stripped);
    let mut i: usize = 0;
    while i < ncs
        invariant
            0 <= i <= ncs,
            ncs == cs.len(),
            first_exact(stripped@, cs, 0) == first_exact(stripped@, cs, i as int),
        decreases ncs - i,
    {
        let ci = chars_of(valid_choices[i].as_str());
        let ci_low = lower_chars(&ci);
        if eq_chars(&ci_low, &stripped_low) {
            proof {
                assert(cs[i as int] == valid_choices@[i as int]@);
            }
            return Ok(crate::output_parser::error::string_from(valid_choices[i].as_str()));
        }
        i = i + 1;
    }

    // The stripped text starts with a choice at a word boundary.
    let mut i2: usize = 0;
    while i2 < ncs
        invariant
            0 <= i2 <= ncs,
            ncs == cs.len(),
            first_exact(stripped@, cs, 0) is None,
            first_prefix(stripped@, cs, 0) == first_prefix(stripped@, cs, i2 as int),
        decreases ncs - i2,
    {
        let ci = chars_of(valid_choices[i2].as_str());
        let ci_low = lower_chars(&ci);
        let cl = ci_low.len();
        if cl <= stripped.len() && crate::text::matches_at(&stripped, &ci_low, 0) && (cl
            == stripped.len() || !crate::text::alnum(stripped[cl])) {
            proof {
                assert(cs[i2 as int].len() == ci_low@.len());
            }
            return Ok(crate::output_parser::error::string_from(valid_choices[i2].as_str()));
        }
        proof {
            if match_at(stripped@, lower_seq(cs[i2 as int]), 0) {
                assert(cl <= stripped@.len());
            }
        }
        i2 = i2 + 1;
    }

    // Earliest word-boundary occurrence in the full lowered text.
    let mut best: Option<(usize, usize)> = None;
    let mut i3: usize = 0;
    while i3 < ncs
        invariant
            0 <= i3 <= ncs,
            ncs == cs.len(),
            first_exact(stripped@, cs, 0) is None,
            first_prefix(stripped@, cs, 0) is None,
            best_wb(lower@, cs, 0, None) == best_wb(
                lower@,
                cs,
                i3 as int,
                match best {
                    Some((bi, bp)) => Some((bi as int, bp as int)),
                    None => None,
                },
            ),
            match best {
                Some((bi, bp)) => bi < i3,
                None => true,
            },
        decreases ncs - i3,
    {
        let ci = chars_of(valid_choices[i3].as_str());
        let ci_low = lower_chars(&ci);
        let here = find_word_boundary_match(&lower, &ci_low);
        match here {
            Some(pos) => {
                match best {
                    None => {
                        best = Some((i3, pos));
                    }
                    Some((bi, bp)) => {
                        if pos < bp {
                            best = Some((i3, pos));
                        }
                    }
                }
            }
            None => {}
        }
        i3 = i3 + 1;
    }
    match best {
        Some((bi, bp)) => {
            proof {
                assert(bi < ncs);
            }
            Ok(crate::output_parser::error::string_from(valid_choices[bi].as_str()))
        }
        None => {
            let mut valid: Vec<String> = Vec::new();
            let mut k: usize = 0;
            while k < ncs
                invariant
                    0 <= k <= ncs,
                    ncs == valid_choices@.len(),
                    valid@.len() == k as int,
                    forall|j: int| 0 <= j < k ==> valid@[j]@ == valid_choices@[j]@,
                decreases ncs - k,
            {
                valid.push(crate::output_parser::error::string_from(valid_choices[k].as_str()));
                k = k + 1;
            }
            proof {
                assert(valid@.map_values(|x: String| x@) =~= valid_choices@.map_values(
                    |x: String| x@,
                ));
            }
            Err(ParseError::NoMatchingChoice { valid })
        }
    }
}

/// Whether two character vectors are equal.
#[verifier::loop_isolation(false)]
fn eq_chars(a: &Vec<char>, b: &Vec<char>) -> (r: bool)
    ensures
        r == (a@ == b@),
{
    let n = a.len();
    if n != b.len() {
        return false;
    }
    let mut i: usize = 0;
    while i < n
        invariant
            n == a@.len() == b@.len(),
            i <= n,
            forall|k: int| 0 <= k < i ==> a@[k] == b@[k],
        decreases n - i,
    {
        if a[i] != b[i] {
            return false;
        }
        i = i + 1;
    }
    proof {
        assert(a@ =~= b@);
    }
    true
}

/// The first word-boundary occurrence of `nd` in `h`.
#[verifier::loop_isolation(false)]
fn find_word_boundary_match(h: &Vec<char>, nd: &Vec<char>) -> (r: Option<usize>)
    ensures
        match r {
            Some(p) => wb_from(h@, nd@, 0) == Some(p as int),
            None => wb_from(h@, nd@, 0) is None,
        },
{
    let n = h.len();
    let m = nd.len();
    if m > n {
        return None;
    }
    let limit = n - m;
    let mut from: usize = 0;
    loop
        invariant
            0 <= from <= limit,
            m == nd@.len(),
            n == h@.len(),
            m <= n,
            limit == n - m,
            wb_from(h@, nd@, 0) == wb_from(h@, nd@, from as int),
        decreases limit - from,
    {
        if crate::text::matches_at(h, nd, from) && (from == 0 || !crate::text::alnum(
            h[from - 1],
        )) && (from + m >= n || !crate::text::alnum(h[from + m])) {
            return Some(from);
        }
        if from == limit {
            proof {
                assert(wb_from(h@, nd@, limit + 1) is None);
            }
            return None;
        }
        from = from + 1;
    }
}

} // verus!
