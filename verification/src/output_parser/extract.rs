//! Shared extraction steps: every parser begins here. Reasoning blocks are
//! stripped, fenced code blocks are pulled out, and bracketed regions are
//! matched with awareness of string literals.

use vstd::prelude::*;
use crate::text::{
    chars_of, find_char_from, find_from, find_sub, find_sub_from, has_sub, lemma_find_from,
    lemma_match_single, match_at, slice_range, string_of, trim_chars, trim_spec, lower_char,
    lemma_trim_idempotent,
};

verus! {

/// The rewriting done for one open/close tag pair: every balanced region
/// is removed left to right, and an unclosed opening tag discards the rest
/// of the text.
pub open spec fn strip_variant_spec(s: Seq<char>, open: Seq<char>, close: Seq<char>) -> Seq<char>
    decreases s.len()
        when open.len() > 0 && close.len() > 0
        via Self_strip_variant_decreases
{
    match find_from(s, open, 0) {
        None => s,
        Some(i) => match find_from(s, close, i) {
            None => s.subrange(0, i),
            Some(j) => strip_variant_spec(
                s.subrange(0, i) + s.subrange(j + close.len(), s.len() as int),
                open,
                close,
            ),
        },
    }
}

#[via_fn]
proof fn Self_strip_variant_decreases(s: Seq<char>, open: Seq<char>, close: Seq<char>) {
    lemma_find_from(s, open, 0);
    match find_from(s, open, 0) {
        None => {}
        Some(i) => {
            lemma_find_from(s, close, i);
        }
    }
}

/// A match inside a subrange of `s` is a match inside `s`.
pub proof fn lemma_match_in_subrange(s: Seq<char>, a: int, b: int, p: Seq<char>, j: int)
    requires
        0 <= a <= b <= s.len(),
        match_at(s.subrange(a, b), p, j),
    ensures
        match_at(s, p, a + j),
{
    assert(s.subrange(a, b).subrange(j, j + p.len()) =~= s.subrange(a + j, a + j + p.len()));
}

/// The stripped text holds no occurrence of the opening tag.
pub proof fn lemma_strip_variant_no_open(s: Seq<char>, open: Seq<char>, close: Seq<char>)
    requires
        open.len() > 0,
        close.len() > 0,
    ensures
        !has_sub(strip_variant_spec(s, open, close), open),
    decreases s.len(),
{
    lemma_find_from(s, open, 0);
    match find_from(s, open, 0) {
        None => {
            if has_sub(s, open) {
                let j = choose|j: int| 0 <= j && match_at(s, open, j);
            }
        }
        Some(i) => {
            lemma_find_from(s, close, i);
            match find_from(s, close, i) {
                None => {
                    let r = s.subrange(0, i);
                    if has_sub(r, open) {
                        let j = choose|j: int| 0 <= j && match_at(r, open, j);
                        lemma_match_in_subrange(s, 0, i, open, j);
                        assert(match_at(s, open, j));
                        assert(j < i);
                        assert(false);
                    }
                }
                Some(j) => {
                    lemma_strip_variant_no_open(
                        s.subrange(0, i) + s.subrange(j + close.len(), s.len() as int),
                        open,
                        close,
                    );
                }
            }
        }
    }
}

/// Stripping a tag that does not occur leaves the text unchanged.
pub proof fn lemma_strip_variant_id(s: Seq<char>, open: Seq<char>, close: Seq<char>)
    requires
        open.len() > 0,
        close.len() > 0,
        !has_sub(s, open),
    ensures
        strip_variant_spec(s, open, close) == s,
{
    lemma_find_from(s, open, 0);
    match find_from(s, open, 0) {
        None => {}
        Some(i) => {
            assert(match_at(s, open, i));
            assert(false);
        }
    }
}

/// If `s` has no occurrence of `p`, neither has any subrange of `s`.
pub proof fn lemma_no_sub_subrange(s: Seq<char>, a: int, b: int, p: Seq<char>)
    requires
        0 <= a <= b <= s.len(),
        !has_sub(s, p),
    ensures
        !has_sub(s.subrange(a, b), p),
{
    if has_sub(s.subrange(a, b), p) {
        let j = choose|j: int| 0 <= j && match_at(s.subrange(a, b), p, j);
        lemma_match_in_subrange(s, a, b, p, j);
    }
}

/// Remove every balanced region delimited by `open`/`close`, left to
/// right; an unbalanced opening tag discards the rest of the text.
#[verifier::loop_isolation(false)]
pub fn strip_tag_variant(s: &Vec<char>, open: &Vec<char>, close: &Vec<char>) -> (r: Vec<char>)
    requires
        open@.len() > 0,
        close@.len() > 0,
    ensures
        r@ == strip_variant_spec(s@, open@, close@),
{
    let n = s.len();
    let mut cur = slice_range(s, 0, n);
    proof {
        assert(s@.subrange(0, n as int) =~= s@);
    }
    loop
        invariant
            strip_variant_spec(cur@, open@, close@) == strip_variant_spec(s@, open@, close@),
        decreases cur@.len(),
    {
        match find_sub(&cur, open) {
            None => {
                proof {
                    assert(find_from(cur@, open@, 0) is None);
                    assert(strip_variant_spec(cur@, open@, close@) == cur@);
                }
                return cur;
            }
            Some(start) => {
                match find_sub_from(&cur, close, start) {
                    None => {
                        proof {
                            assert(find_from(cur@, open@, 0) == Some(start as int));
                            assert(find_from(cur@, close@, start as int) is None);
                            assert(strip_variant_spec(cur@, open@, close@) == cur@.subrange(
                                0,
                                start as int,
                            ));
                        }
                        return slice_range(&cur, 0, start);
                    }
                    Some(j) => {
                        let m = cur.len();
                        let mut next = slice_range(&cur, 0, start);
                        let tail = slice_range(&cur, j + close.len(), m);
                        crate::text::append_all(&mut next, &tail);
                        proof {
                            assert(next@ =~= cur@.subrange(0, start as int) + cur@.subrange(
                                j + close@.len(),
                                cur@.len() as int,
                            ));
                        }
                        cur = next;
                    }
                }
            }
        }
    }
}

/// The opening and closing tags of the two reasoning markers.
pub open spec fn think_open() -> Seq<char> {
    "<think>"@
}

/// The closing tag of the first reasoning marker.
pub open spec fn think_close() -> Seq<char> {
    "</think>"@
}

/// The opening tag of the second reasoning marker.
pub open spec fn thinking_open() -> Seq<char> {
    "<thinking>"@
}

/// The closing tag of the second reasoning marker.
pub open spec fn thinking_close() -> Seq<char> {
    "</thinking>"@
}

/// What [`strip_think_tags`] computes: both tag pairs stripped, the first
/// pair first.
pub open spec fn strip_think_spec(s: Seq<char>) -> Seq<char> {
    strip_variant_spec(
        strip_variant_spec(s, think_open(), think_close()),
        thinking_open(),
        thinking_close(),
    )
}

/// What [`preprocess`] computes: reasoning stripped, then trimmed.
pub open spec fn preprocess_spec(s: Seq<char>) -> Seq<char> {
    trim_spec(strip_think_spec(s))
}

/// Strip all `<think>...</think>` and `<thinking>...</thinking>` blocks.
///
/// Handles complete blocks, incomplete blocks (no closing tag), and
/// multiple sequential blocks.
pub fn strip_think_tags(text: &str) -> (r: String)
    ensures
        r@ == strip_think_spec(text@),
{
    proof {
        reveal_strlit("<think>");
        reveal_strlit("</think>");
        reveal_strlit("<thinking>");
        reveal_strlit("</thinking>");
    }
    let cs = chars_of(text);
    let open1 = chars_of("<think>");
    let close1 = chars_of("</think>");
    let open2 = chars_of("<thinking>");
    let close2 = chars_of("</thinking>");
    let pass1 = strip_tag_variant(&cs, &open1, &close1);
    let pass2 = strip_tag_variant(&pass1, &open2, &close2);
    string_of(&pass2)
}

/// Strip reasoning blocks, then trim surrounding whitespace. Every parser
/// applies this first.
pub fn preprocess(text: &str) -> (r: String)
    ensures
        r@ == preprocess_spec(text@),
{
    proof {
        reveal_strlit("<think>");
        reveal_strlit("</think>");
        reveal_strlit("<thinking>");
        reveal_strlit("</thinking>");
    }
    let cs = chars_of(text);
    let open1 = chars_of("<think>");
    let close1 = chars_of("</think>");
    let open2 = chars_of("<thinking>");
    let close2 = chars_of("</thinking>");
    let pass1 = strip_tag_variant(&cs, &open1, &close1);
    let pass2 = strip_tag_variant(&pass1, &open2, &close2);
    let trimmed = trim_chars(&pass2);
    string_of(&trimmed)
}

/// Stripped text never holds a `<thinking>` tag; and whenever the first
/// pass leaves no `<thinking>` tag behind, the result holds no `<think>`
/// tag either. (A `<thinking>` region whose removal glues text into a
/// fresh `<think>` tag is the one case the second claim excludes.)
pub proof fn lemma_strip_reasoning_clean(s: Seq<char>)
    ensures
        !has_sub(strip_think_spec(s), thinking_open()),
        !has_sub(strip_variant_spec(s, think_open(), think_close()), thinking_open())
            ==> !has_sub(strip_think_spec(s), think_open()),
{
    reveal_strlit("<think>");
    reveal_strlit("</think>");
    reveal_strlit("<thinking>");
    reveal_strlit("</thinking>");
    let t1 = strip_variant_spec(s, think_open(), think_close());
    lemma_strip_variant_no_open(s, think_open(), think_close());
    lemma_strip_variant_no_open(t1, thinking_open(), thinking_close());
    if !has_sub(t1, thinking_open()) {
        lemma_strip_variant_id(t1, thinking_open(), thinking_close());
    }
}

/// The fence that opens and closes a code block.
pub open spec fn fence() -> Seq<char> {
    "```"@
}

/// ASCII lower-casing of a whole sequence.
pub open spec fn lower_seq(s: Seq<char>) -> Seq<char> {
    Seq::new(s.len(), |i: int| lower_char(s[i]))
}

/// What [`extract_code_block`] returns when scanning from `from`: the
/// language hint (text between the fence and the next line break, trimmed,
/// absent when empty) and the trimmed content up to the closing fence. A
/// fence with no line break after it ends the search; a fence with no
/// closing fence is skipped.
pub open spec fn code_block_spec(s: Seq<char>, from: int) -> Option<(Option<Seq<char>>, Seq<
    char,
>)>
    decreases s.len() - from
        when 0 <= from
        via Self_code_block_decreases
{
    match find_from(s, fence(), from) {
        None => None,
        Some(f) => {
            let ab = f + 3;
            match find_from(s, seq!['\n'], ab) {
                None => None,
                Some(le) => {
                    let lang = trim_spec(s.subrange(ab, le));
                    let cs = le + 1;
                    match find_from(s, fence(), cs) {
                        Some(ce) => Some(
                            (
                                if lang.len() == 0 {
                                    None
                                } else {
                                    Some(lang)
                                },
                                trim_spec(s.subrange(cs, ce)),
                            ),
                        ),
                        None => code_block_spec(s, ab),
                    }
                },
            }
        },
    }
}

#[via_fn]
proof fn Self_code_block_decreases(s: Seq<char>, from: int) {
    reveal_strlit("```");
    lemma_find_from(s, fence(), from);
    match find_from(s, fence(), from) {
        None => {}
        Some(f) => {
            lemma_find_from(s, seq!['\n'], f + 3);
        }
    }
}

/// What [`extract_code_block_for`] returns when scanning from `from`: the
/// trimmed content of the first closed block whose language hint matches
/// `lang` ASCII-case-insensitively.
pub open spec fn code_block_for_spec(s: Seq<char>, lang: Seq<char>, from: int) -> Option<
    Seq<char>,
>
    decreases s.len() - from
        when 0 <= from
        via Self_code_block_for_decreases
{
    match find_from(s, fence(), from) {
        None => None,
        Some(f) => {
            let ab = f + 3;
            match find_from(s, seq!['\n'], ab) {
                None => None,
                Some(le) => {
                    let cs = le + 1;
                    if lower_seq(trim_spec(s.subrange(ab, le))) == lower_seq(lang) {
                        match find_from(s, fence(), cs) {
                            Some(ce) => Some(trim_spec(s.subrange(cs, ce))),
                            None => code_block_for_spec(s, lang, cs),
                        }
                    } else {
                        code_block_for_spec(s, lang, cs)
                    }
                },
            }
        },
    }
}

#[via_fn]
proof fn Self_code_block_for_decreases(s: Seq<char>, lang: Seq<char>, from: int) {
    reveal_strlit("```");
    lemma_find_from(s, fence(), from);
    match find_from(s, fence(), from) {
        None => {}
        Some(f) => {
            lemma_find_from(s, seq!['\n'], f + 3);
        }
    }
}

/// ASCII-case-insensitive equality of two character vectors.
#[verifier::loop_isolation(false)]
fn eq_ignore_case(a: &Vec<char>, b: &Vec<char>) -> (r: bool)
    ensures
        r == (lower_seq(a@) == lower_seq(b@)),
{
    let n = a.len();
    if n != b.len() {
        proof {
            assert(lower_seq(a@).len() != lower_seq(b@).len());
        }
        return false;
    }
    let mut i: usize = 0;
    while i < n
        invariant
            n == a@.len() == b@.len(),
            i <= n,
            forall|k: int| 0 <= k < i ==> lower_char(a@[k]) == lower_char(b@[k]),
        decreases n - i,
    {
        if crate::text::lower(a[i]) != crate::text::lower(b[i]) {
            proof {
                assert(lower_seq(a@)[i as int] != lower_seq(b@)[i as int]);
            }
            return false;
        }
        i = i + 1;
    }
    proof {
        assert(lower_seq(a@) =~= lower_seq(b@));
    }
    true
}

/// Extract the first markdown code block as `(language_hint, content)`.
///
/// The hint is `None` for a bare fence; a block with no closing fence is
/// not returned.
#[verifier::loop_isolation(false)]
pub fn extract_code_block(text: &str) -> (r: Option<(Option<String>, String)>)
    ensures
        match r {
            Some(p) => {
                &&& code_block_spec(text@, 0) matches Some(q)
                &&& q.1 == p.1@
                &&& match (p.0, q.0) {
                    (Some(a), Some(b)) => a@ == b,
                    (None, None) => true,
                    _ => false,
                }
            },
            None => code_block_spec(text@, 0) is None,
        },
{
    proof {
        reveal_strlit("```");
    }
    let s = chars_of(text);
    let pat = chars_of("```");
    let nlpat = chars_of("\n");
    proof {
        reveal_strlit("\n");
        assert(nlpat@ =~= seq!['\n']);
    }
    let n = s.len();
    let mut from: usize = 0;
    loop
        invariant
            n == s@.len(),
            0 <= from,
            code_block_spec(s@, from as int) == code_block_spec(s@, 0),
        decreases n - from,
    {
        match find_sub_from(&s, &pat, from) {
            None => {
                return None;
            }
            Some(f) => {
                let ab = f + 3;
                match find_sub_from(&s, &nlpat, ab) {
                    None => {
                        return None;
                    }
                    Some(le) => {
                        let lang_raw = slice_range(&s, ab, le);
                        let lang = trim_chars(&lang_raw);
                        let cs = le + 1;
                        match find_sub_from(&s, &pat, cs) {
                            Some(ce) => {
                                let content_raw = slice_range(&s, cs, ce);
                                let content = trim_chars(&content_raw);
                                let hint = if lang.len() == 0 {
                                    None
                                } else {
                                    Some(string_of(&lang))
                                };
                                return Some((hint, string_of(&content)));
                            }
                            None => {
                                from = ab;
                            }
                        }
                    }
                }
            }
        }
    }
}

/// Extract the content of the first code block whose language hint equals
/// `lang`, ASCII-case-insensitively.
#[verifier::loop_isolation(false)]
pub fn extract_code_block_for(text: &str, lang: &str) -> (r: Option<String>)
    ensures
        match r {
            Some(t) => code_block_for_spec(text@, lang@, 0) == Some(t@),
            None => code_block_for_spec(text@, lang@, 0) is None,
        },
{
    proof {
        reveal_strlit("```");
    }
    let s = chars_of(text);
    let lv = chars_of(lang);
    let pat = chars_of("```");
    let nlpat = chars_of("\n");
    proof {
        reveal_strlit("\n");
        assert(nlpat@ =~= seq!['\n']);
    }
    let n = s.len();
    let mut from: usize = 0;
    loop
        invariant
            n == s@.len(),
            0 <= from,
            lv@ == lang@,
            code_block_for_spec(s@, lang@, from as int) == code_block_for_spec(s@, lang@, 0),
        decreases n - from,
    {
        match find_sub_from(&s, &pat, from) {
            None => {
                return None;
            }
            Some(f) => {
                let ab = f + 3;
                match find_sub_from(&s, &nlpat, ab) {
                    None => {
                        return None;
                    }
                    Some(le) => {
                        let lang_raw = slice_range(&s, ab, le);
                        let lang_here = trim_chars(&lang_raw);
                        let cs = le + 1;
                        if eq_ignore_case(&lang_here, &lv) {
                            match find_sub_from(&s, &pat, cs) {
                                Some(ce) => {
                                    let content_raw = slice_range(&s, cs, ce);
                                    let content = trim_chars(&content_raw);
                                    return Some(string_of(&content));
                                }
                                None => {
                                    from = cs;
                                }
                            }
                        } else {
                            from = cs;
                        }
                    }
                }
            }
        }
    }
}

/// One step of the bracket scanner: `(depth, inside_string, escape_next)`
/// updated by one character.
pub open spec fn brk_step(
    st: (int, bool, bool),
    c: char,
    open: char,
    close: char,
) -> (int, bool, bool) {
    if st.2 {
        (st.0, st.1, false)
    } else if st.1 && c == '\\' {
        (st.0, st.1, true)
    } else if c == '"' {
        (st.0, !st.1, false)
    } else if st.1 {
        st
    } else if c == open {
        (st.0 + 1, st.1, st.2)
    } else if c == close {
        (st.0 - 1, st.1, st.2)
    } else {
        st
    }
}

/// The scanner state after reading all of `s` from state `st`.
pub open spec fn brk_fold(
    s: Seq<char>,
    st: (int, bool, bool),
    open: char,
    close: char,
) -> (int, bool, bool)
    decreases s.len(),
{
    if s.len() == 0 {
        st
    } else {
        brk_fold(s.drop_first(), brk_step(st, s[0], open, close), open, close)
    }
}

/// Index of the character that closes the region begun before `i`, given
/// the scanner state at `i`; `None` when the region never closes.
pub open spec fn bracket_end(
    s: Seq<char>,
    i: int,
    st: (int, bool, bool),
    open: char,
    close: char,
) -> Option<int>
    decreases s.len() - i
        when 0 <= i
{
    if i >= s.len() {
        None
    } else {
        let c = s[i];
        if !st.2 && !st.1 && c != '"' && c != open && c == close && st.0 == 1 {
            Some(i)
        } else {
            bracket_end(s, i + 1, brk_step(st, c, open, close), open, close)
        }
    }
}

/// A region that the scanner closes folds back to depth zero, outside any
/// string literal.
pub proof fn lemma_bracket_end_balanced(
    s: Seq<char>,
    i: int,
    st: (int, bool, bool),
    open: char,
    close: char,
)
    requires
        0 <= i,
        !st.1,
        !st.2,
        bracket_end(s, i, st, open, close) is Some,
    ensures
        ({
            let e = bracket_end(s, i, st, open, close)->Some_0;
            &&& i <= e < s.len()
            &&& s[e] == close
            &&& brk_fold(s.subrange(i, e + 1), st, open, close) == (0int, false, false)
        }),
    decreases s.len() - i,
{
    let e = bracket_end(s, i, st, open, close)->Some_0;
    let c = s[i];
    if !st.2 && !st.1 && c != '"' && c != open && c == close && st.0 == 1 {
        assert(s.subrange(i, i + 1) =~= seq![c]);
        assert(s.subrange(i, i + 1).drop_first() =~= Seq::<char>::empty());
        assert(s.subrange(i, i + 1)[0] == c);
        assert(brk_fold(Seq::<char>::empty(), brk_step(st, c, open, close), open, close)
            == brk_step(st, c, open, close));
        assert(brk_fold(s.subrange(i, i + 1), st, open, close) == brk_step(st, c, open, close));
    } else {
        let st2 = brk_step(st, c, open, close);
        assert(!st2.1 || st.1 || c == '"');
        if st2.1 || st2.2 {
            lemma_bracket_end_through_string(s, i + 1, st2, open, close);
        } else {
            lemma_bracket_end_balanced(s, i + 1, st2, open, close);
        }
        let region = s.subrange(i, e + 1);
        assert(region.drop_first() =~= s.subrange(i + 1, e + 1));
        assert(region[0] == c);
    }
}

/// The same claim carried through positions where the scanner stands
/// inside a string literal or right after a backslash.
proof fn lemma_bracket_end_through_string(
    s: Seq<char>,
    i: int,
    st: (int, bool, bool),
    open: char,
    close: char,
)
    requires
        0 <= i,
        st.1 || st.2,
        bracket_end(s, i, st, open, close) is Some,
    ensures
        ({
            let e = bracket_end(s, i, st, open, close)->Some_0;
            &&& i <= e < s.len()
            &&& s[e] == close
            &&& brk_fold(s.subrange(i, e + 1), st, open, close) == (0int, false, false)
        }),
    decreases s.len() - i,
{
    let e = bracket_end(s, i, st, open, close)->Some_0;
    let c = s[i];
    let st2 = brk_step(st, c, open, close);
    if st2.1 || st2.2 {
        lemma_bracket_end_through_string(s, i + 1, st2, open, close);
    } else {
        lemma_bracket_end_balanced(s, i + 1, st2, open, close);
    }
    let region = s.subrange(i, e + 1);
    assert(region.drop_first() =~= s.subrange(i + 1, e + 1));
    assert(region[0] == c);
}

/// The last balanced `open`..`close` region of the text, scanning greedily
/// from `from`: each closed region is recorded and the scan resumes after
/// it; a region that never closes ends the scan.
pub open spec fn best_region_spec(
    s: Seq<char>,
    open: char,
    close: char,
    from: int,
) -> Option<(int, int)>
    decreases s.len() - from
        when 0 <= from
        via Self_best_region_decreases
{
    match find_from(s, seq![open], from) {
        None => None,
        Some(i) => match bracket_end(s, i, (0, false, false), open, close) {
            None => None,
            Some(e) => match best_region_spec(s, open, close, e + 1) {
                Some(r) => Some(r),
                None => Some((i, e)),
            },
        },
    }
}

#[via_fn]
proof fn Self_best_region_decreases(s: Seq<char>, open: char, close: char, from: int) {
    lemma_find_from(s, seq![open], from);
    match find_from(s, seq![open], from) {
        None => {}
        Some(i) => {
            match bracket_end(s, i, (0, false, false), open, close) {
                None => {}
                Some(e) => {
                    lemma_bracket_end_balanced(s, i, (0, false, false), open, close);
                }
            }
        }
    }
}

/// The region [`find_bracketed`] returns is balanced: scanned on its own,
/// it ends at depth zero, outside any string literal, on its closing
/// character.
pub proof fn lemma_best_region_balanced(s: Seq<char>, open: char, close: char, from: int)
    requires
        0 <= from,
        best_region_spec(s, open, close, from) is Some,
    ensures
        ({
            let (a, b) = best_region_spec(s, open, close, from)->Some_0;
            &&& from <= a <= b < s.len()
            &&& s[a] == open || open == '"'
            &&& s[b] == close
            &&& brk_fold(s.subrange(a, b + 1), (0, false, false), open, close) == (
                0int,
                false,
                false,
            )
        }),
    decreases s.len() - from,
{
    lemma_find_from(s, seq![open], from);
    let i = find_from(s, seq![open], from)->Some_0;
    lemma_match_single(s, open, i);
    lemma_bracket_end_balanced(s, i, (0, false, false), open, close);
    let e = bracket_end(s, i, (0, false, false), open, close)->Some_0;
    match best_region_spec(s, open, close, e + 1) {
        Some(r) => {
            lemma_best_region_balanced(s, open, close, e + 1);
        }
        None => {}
    }
}

/// Find the last balanced region delimited by `open`/`close`, respecting
/// double-quoted string literals and nesting. Later regions are preferred
/// because model answers typically follow preamble.
#[verifier::loop_isolation(false)]
pub fn find_bracketed(text: &str, open: char, close: char) -> (r: Option<String>)
    ensures
        match r {
            Some(t) => {
                &&& best_region_spec(text@, open, close, 0) matches Some(p)
                &&& t@ == text@.subrange(p.0, p.1 + 1)
            },
            None => best_region_spec(text@, open, close, 0) is None,
        },
{
    let s = chars_of(text);
    let n = s.len();
    let mut from: usize = 0;
    let mut best: Option<(usize, usize)> = None;
    loop
        invariant
            n == s@.len(),
            0 <= from,
            match best {
                Some((a, b)) => a <= b < n && (match best_region_spec(s@, open, close, 0) {
                    Some(p) => best_region_spec(s@, open, close, from as int) is Some || p == (
                        a as int,
                        b as int,
                    ),
                    None => false,
                }) && (best_region_spec(s@, open, close, from as int) is Some
                    ==> best_region_spec(s@, open, close, 0) == best_region_spec(
                    s@,
                    open,
                    close,
                    from as int,
                )),
                None => best_region_spec(s@, open, close, 0) == best_region_spec(
                    s@,
                    open,
                    close,
                    from as int,
                ),
            },
        decreases n - from,
    {
        match find_char_from(&s, open, from) {
            None => {
                proof {
                    lemma_find_from_singleton_none(s@, open, from as int);
                }
                break;
            }
            Some(start) => {
                proof {
                    lemma_find_from_singleton_some(s@, open, from as int, start as int);
                }
                match scan_bracket_end(&s, start, open, close) {
                    None => {
                        break;
                    }
                    Some(e) => {
                        proof {
                            lemma_bracket_end_balanced(s@, start as int, (0, false, false), open, close);
                        }
                        best = Some((start, e));
                        from = e + 1;
                    }
                }
            }
        }
    }
    match best {
        Some((a, b)) => {
            let region = slice_range(&s, a, b + 1);
            Some(string_of(&region))
        }
        None => None,
    }
}

/// A failing character search is a failing one-character pattern search.
pub proof fn lemma_find_from_singleton_none(s: Seq<char>, c: char, from: int)
    requires
        0 <= from,
        forall|j: int| from <= j < s.len() ==> s[j] != c,
    ensures
        find_from(s, seq![c], from) is None,
{
    assert forall|j: int| from <= j implies !match_at(s, seq![c], j) by {
        lemma_match_single(s, c, j);
    }
    crate::text::lemma_find_from_unique(s, seq![c], from, None);
}

/// A successful character search is a successful one-character pattern
/// search at the same index.
pub proof fn lemma_find_from_singleton_some(s: Seq<char>, c: char, from: int, i: int)
    requires
        0 <= from <= i < s.len(),
        s[i] == c,
        forall|j: int| from <= j < i ==> s[j] != c,
    ensures
        find_from(s, seq![c], from) == Some(i),
{
    lemma_match_single(s, c, i);
    assert forall|j: int| from <= j < i implies !match_at(s, seq![c], j) by {
        lemma_match_single(s, c, j);
    }
    crate::text::lemma_find_from_unique(s, seq![c], from, Some(i));
}

/// A character first found at `p` in the whole text, searching from `i`,
/// is first found at `p - i` in the tail that starts at `i`.
pub proof fn lemma_find_char_sub(s: Seq<char>, i: int, p: int, c: char)
    requires
        0 <= i <= p < s.len(),
        s[p] == c,
        forall|j: int| i <= j < p ==> s[j] != c,
    ensures
        find_from(s.subrange(i, s.len() as int), seq![c], 0) == Some(p - i),
{
    let rest = s.subrange(i, s.len() as int);
    assert(rest[p - i] == c);
    assert(forall|k: int| 0 <= k < p - i ==> rest[k] == s[i + k]);
    lemma_find_from_singleton_some(rest, c, 0, p - i);
}

/// A character absent from position `i` on is absent from the tail that
/// starts at `i`.
pub proof fn lemma_find_char_sub_none(s: Seq<char>, i: int, c: char)
    requires
        0 <= i <= s.len(),
        forall|j: int| i <= j < s.len() ==> s[j] != c,
    ensures
        find_from(s.subrange(i, s.len() as int), seq![c], 0) is None,
{
    let rest = s.subrange(i, s.len() as int);
    assert(forall|k: int| 0 <= k < rest.len() ==> rest[k] == s[i + k]);
    lemma_find_from_singleton_none(rest, c, 0);
}

/// Scan forward from the opening delimiter at `start` for the character
/// that closes its region.
#[verifier::loop_isolation(false)]
fn scan_bracket_end(s: &Vec<char>, start: usize, open: char, close: char) -> (r: Option<usize>)
    requires
        start < s@.len(),
    ensures
        match r {
            Some(e) => bracket_end(s@, start as int, (0, false, false), open, close) == Some(
                e as int,
            ) && start <= e < s@.len(),
            None => bracket_end(s@, start as int, (0, false, false), open, close) is None,
        },
{
    let n = s.len();
    let mut i: usize = start;
    let mut depth: i128 = 0;
    let mut in_string = false;
    let mut escape = false;
    while i < n
        invariant
            n == s@.len(),
            start <= i <= n,
            -(i as int) <= depth <= i as int + 1,
            bracket_end(s@, start as int, (0, false, false), open, close) == bracket_end(
                s@,
                i as int,
                (depth as int, in_string, escape),
                open,
                close,
            ),
        decreases n - i,
    {
        let c = s[i];
        if !escape && !in_string && c != '"' && c != open && c == close && depth == 1 {
            return Some(i);
        }
        proof {
            assert(bracket_end(s@, i as int, (depth as int, in_string, escape), open, close)
                == bracket_end(
                s@,
                i + 1,
                brk_step((depth as int, in_string, escape), c, open, close),
                open,
                close,
            ));
        }
        if escape {
            escape = false;
        } else if in_string && c == '\\' {
            escape = true;
        } else if c == '"' {
            in_string = !in_string;
        } else if in_string {
        } else if c == open {
            depth = depth + 1;
        } else if c == close {
            depth = depth - 1;
        }
        i = i + 1;
    }
    None
}

/// Preprocessing is idempotent whenever the first strip pass leaves no
/// `<thinking>` tag behind (the glued-tag case above is excluded).
pub proof fn lemma_preprocess_idempotent(s: Seq<char>)
    requires
        !has_sub(strip_variant_spec(s, think_open(), think_close()), thinking_open()),
    ensures
        preprocess_spec(preprocess_spec(s)) == preprocess_spec(s),
{
    reveal_strlit("<think>");
    reveal_strlit("</think>");
    reveal_strlit("<thinking>");
    reveal_strlit("</thinking>");
    let t1 = strip_variant_spec(s, think_open(), think_close());
    lemma_strip_variant_no_open(s, think_open(), think_close());
    lemma_strip_variant_id(t1, thinking_open(), thinking_close());
    assert(strip_think_spec(s) == t1);
    let p = trim_spec(t1);
    crate::text::lemma_ws_prefix(t1);
    crate::text::lemma_ws_suffix(t1);
    if crate::text::ws_prefix(t1) == t1.len() {
        assert(p =~= Seq::<char>::empty());
        assert(!has_sub(p, think_open())) by {
            if has_sub(p, think_open()) {
                let j = choose|j: int| 0 <= j && match_at(p, think_open(), j);
            }
        }
        assert(!has_sub(p, thinking_open())) by {
            if has_sub(p, thinking_open()) {
                let j = choose|j: int| 0 <= j && match_at(p, thinking_open(), j);
            }
        }
    } else {
        lemma_no_sub_subrange(
            t1,
            crate::text::ws_prefix(t1),
            t1.len() - crate::text::ws_suffix(t1),
            think_open(),
        );
        lemma_no_sub_subrange(
            t1,
            crate::text::ws_prefix(t1),
            t1.len() - crate::text::ws_suffix(t1),
            thinking_open(),
        );
    }
    lemma_strip_variant_id(p, think_open(), think_close());
    lemma_strip_variant_id(p, thinking_open(), thinking_close());
    assert(strip_think_spec(p) == p);
    lemma_trim_idempotent(t1);
}

} // verus!
