//! Clean text extraction: strip reasoning blocks and the common
//! boilerplate openings models put before their answer.

use vstd::prelude::*;
use crate::text::{
    chars_of, find_from, is_ws, match_at, slice_range, string_of, trim_chars, trim_spec,
    ws_prefix,
};
use crate::output_parser::extract::{preprocess, preprocess_spec};
use crate::output_parser::error::ParseError;

verus! {

/// Boilerplate openings stripped whole.
pub open spec fn simple_prefixes() -> Seq<Seq<char>> {
    seq![
        "Sure! "@,
        "Sure, "@,
        "Sure.\n"@,
        "Of course! "@,
        "Of course, "@,
        "Of course.\n"@,
        "Certainly! "@,
        "Certainly, "@,
        "Certainly.\n"@,
        "Absolutely! "@,
        "Absolutely, "@,
    ]
}

/// Openings that consume the rest of their line (up to a line break or
/// colon).
pub open spec fn line_prefixes() -> Seq<Seq<char>> {
    seq!["Here's "@, "Here is "@]
}

/// `s` without leading ASCII whitespace.
pub open spec fn trim_start_spec(s: Seq<char>) -> Seq<char> {
    s.subrange(ws_prefix(s), s.len() as int)
}

/// The text after the first simple prefix that matches, if any.
pub open spec fn strip_simple(cleaned: Seq<char>, k: int) -> Seq<char>
    decreases simple_prefixes().len() - k
        when 0 <= k
{
    if k >= simple_prefixes().len() {
        cleaned
    } else if match_at(cleaned, simple_prefixes()[k], 0) {
        cleaned.subrange(simple_prefixes()[k].len() as int, cleaned.len() as int)
    } else {
        strip_simple(cleaned, k + 1)
    }
}

/// The text after the first line prefix that matches and is followed by
/// a line break or colon, if any.
pub open spec fn strip_line(cleaned: Seq<char>, k: int) -> Seq<char>
    decreases line_prefixes().len() - k
        when 0 <= k
{
    if k >= line_prefixes().len() {
        cleaned
    } else if match_at(cleaned, line_prefixes()[k], 0) {
        let rest = cleaned.subrange(line_prefixes()[k].len() as int, cleaned.len() as int);
        match find_from(rest, seq!['\n'], 0) {
            Some(p) => trim_start_spec(rest.subrange(p + 1, rest.len() as int)),
            None => match find_from(rest, seq![':'], 0) {
                Some(p) => trim_start_spec(rest.subrange(p + 1, rest.len() as int)),
                None => strip_line(cleaned, k + 1),
            },
        }
    } else {
        strip_line(cleaned, k + 1)
    }
}

/// What [`parse_text`] yields for a cleaned, non-empty response.
pub open spec fn text_spec(cleaned: Seq<char>) -> Seq<char> {
    let t1 = strip_simple(cleaned, 0);
    if t1 != cleaned {
        trim_spec(t1)
    } else {
        trim_spec(strip_line(cleaned, 0))
    }
}

/// `s` without leading ASCII whitespace, as a fresh vector.
#[verifier::loop_isolation(false)]
fn trim_start_chars(s: &Vec<char>) -> (r: Vec<char>)
    ensures
        r@ == trim_start_spec(s@),
{
    let n = s.len();
    proof {
        crate::text::lemma_ws_prefix(s@);
    }
    let mut a: usize = 0;
    while a < n && crate::text::ws(s[a])
        invariant
            0 <= a <= n,
            forall|j: int| 0 <= j < a ==> is_ws(s@[j]),
        decreases n - a,
    {
        a = a + 1;
    }
    proof {
        if a == n {
            lemma_all_ws_prefix(s@);
        } else {
            lemma_ws_prefix_stop(s@, a as int);
        }
    }
    slice_range(s, a, n)
}

/// A text of nothing but whitespace is its own whitespace prefix.
proof fn lemma_all_ws_prefix(s: Seq<char>)
    requires
        forall|j: int| 0 <= j < s.len() ==> is_ws(s[j]),
    ensures
        ws_prefix(s) == s.len(),
    decreases s.len(),
{
    if s.len() > 0 {
        assert(forall|j: int| 0 <= j < s.drop_first().len() ==> s.drop_first()[j] == s[j + 1]);
        lemma_all_ws_prefix(s.drop_first());
    }
}

/// A whitespace run of length `a` ended by a non-whitespace character is
/// exactly the whitespace prefix.
proof fn lemma_ws_prefix_stop(s: Seq<char>, a: int)
    requires
        0 <= a < s.len(),
        forall|j: int| 0 <= j < a ==> is_ws(s[j]),
        !is_ws(s[a]),
    ensures
        ws_prefix(s) == a,
    decreases s.len(),
{
    if a > 0 {
        assert(forall|j: int| 0 <= j < s.drop_first().len() ==> s.drop_first()[j] == s[j + 1]);
        lemma_ws_prefix_stop(s.drop_first(), a - 1);
    }
}

/// Clean an LLM response for use as plain text: strip reasoning blocks,
/// trim, and remove common boilerplate openings.
#[verifier::loop_isolation(false)]
#[verifier::rlimit(60)]
pub fn parse_text(response: &str) -> (r: Result<String, ParseError>)
    ensures
        match r {
            Ok(t) => preprocess_spec(response@).len() > 0 && t@ == text_spec(
                preprocess_spec(response@),
            ) && t@.len() > 0,
            Err(e) => e is EmptyResponse && (preprocess_spec(response@).len() == 0 || text_spec(
                preprocess_spec(response@),
            ).len() == 0),
        },
{
    proof {
        reveal_strlit("Sure! ");
        reveal_strlit("Sure, ");
        reveal_strlit("Sure.\n");
        reveal_strlit("Of course! ");
        reveal_strlit("Of course, ");
        reveal_strlit("Of course.\n");
        reveal_strlit("Certainly! ");
        reveal_strlit("Certainly, ");
        reveal_strlit("Certainly.\n");
        reveal_strlit("Absolutely! ");
        reveal_strlit("Absolutely, ");
        reveal_strlit("Here's ");
        reveal_strlit("Here is ");
        reveal_strlit("\n");
        reveal_strlit(":");
    }
    let cleaned_s = preprocess(response);
    let cleaned = chars_of(cleaned_s.as_str());
    let n = cleaned.len();
    if n == 0 {
        return Err(ParseError::EmptyResponse);
    }
    let simple = [
        "Sure! ",
        "Sure, ",
        "Sure.\n",
        "Of course! ",
        "Of course, ",
        "Of course.\n",
        "Certainly! ",
        "Certainly, ",
        "Certainly.\n",
        "Absolutely! ",
        "Absolutely, ",
    ];
    let mut text = slice_range(&cleaned, 0, n);
    proof {
        assert(cleaned@.subrange(0, n as int) =~= cleaned@);
    }
    let mut k: usize = 0;
    let mut stripped_simple = false;
    while k < 11
        invariant
            0 <= k <= 11,
            n == cleaned@.len(),
            !stripped_simple ==> text@ == cleaned@ && strip_simple(cleaned@, 0) == strip_simple(
                cleaned@,
                k as int,
            ),
            stripped_simple ==> text@ == strip_simple(cleaned@, 0) && text@ != cleaned@,
        decreases 11 - k,
    {
        if !stripped_simple {
            let p = chars_of(simple[k]);
            proof {
                assert(p@ == simple_prefixes()[k as int]);
                assert(simple_prefixes()[k as int].len() > 0);
            }
            if p.len() <= n && crate::text::matches_at(&cleaned, &p, 0) {
                text = slice_range(&cleaned, p.len(), n);
                stripped_simple = true;
                proof {
                    assert(text@.len() < cleaned@.len());
                }
            }
        }
        k = k + 1;
    }
    if !stripped_simple {
        // Line prefixes: consume up to the next line break or colon.
        let line = ["Here's ", "Here is "];
        let mut k2: usize = 0;
        let mut stripped_line = false;
        while k2 < 2
            invariant
                0 <= k2 <= 2,
                n == cleaned@.len(),
                !stripped_line ==> text@ == cleaned@ && strip_line(cleaned@, 0) == strip_line(
                    cleaned@,
                    k2 as int,
                ),
                stripped_line ==> text@ == strip_line(cleaned@, 0),
            decreases 2 - k2,
        {
            if !stripped_line {
                let p = chars_of(line[k2]);
                proof {
                    assert(p@ == line_prefixes()[k2 as int]);
                }
                if p.len() <= n && crate::text::matches_at(&cleaned, &p, 0) {
                    let rest = slice_range(&cleaned, p.len(), n);
                    let nl = chars_of("\n");
                    proof {
                        assert(nl@ =~= seq!['\n']);
                    }
                    match crate::text::find_sub(&rest, &nl) {
                        Some(pos) => {
                            let tail = slice_range(&rest, pos + 1, rest.len());
                            text = trim_start_chars(&tail);
                            stripped_line = true;
                        }
                        None => {
                            let co = chars_of(":");
                            proof {
                                assert(co@ =~= seq![':']);
                            }
                            match crate::text::find_sub(&rest, &co) {
                                Some(pos) => {
                                    let tail = slice_range(&rest, pos + 1, rest.len());
                                    text = trim_start_chars(&tail);
                                    stripped_line = true;
                                }
                                None => {}
                            }
                        }
                    }
                }
            }
            k2 = k2 + 1;
        }
    }
    let result = trim_chars(&text);
    if result.len() == 0 {
        return Err(ParseError::EmptyResponse);
    }
    Ok(string_of(&result))
}

} // verus!
