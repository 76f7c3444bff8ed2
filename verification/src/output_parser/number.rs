//! Numeric value extraction: find a decimal literal in a model response,
//! handling labels (`Score: 8.5`), fractions (`8/10`) and prose. A number
//! is returned as its literal text, exact as written.

use vstd::prelude::*;
use crate::text::{
    chars_of, find_from, is_digit, lower_char, match_at, slice_range, string_of,
};
use crate::output_parser::extract::{lower_seq, preprocess, preprocess_spec};
use crate::output_parser::choice::lower_chars;
use crate::output_parser::error::ParseError;

verus! {

/// The first index at or after `j` holding a non-digit character, or the
/// length of `s`.
pub open spec fn digit_end(s: Seq<char>, j: int) -> int
    decreases s.len() - j
        when 0 <= j
{
    if j >= s.len() {
        s.len() as int
    } else if is_digit(s[j]) {
        digit_end(s, j + 1)
    } else {
        j
    }
}

/// The digit run ends at or after where it begins, within the text, on
/// digits only.
pub proof fn lemma_digit_end(s: Seq<char>, j: int)
    requires
        0 <= j <= s.len(),
    ensures
        j <= digit_end(s, j) <= s.len(),
        forall|k: int| j <= k < digit_end(s, j) ==> is_digit(s[k]),
        digit_end(s, j) < s.len() ==> !is_digit(s[digit_end(s, j)]),
    decreases s.len() - j,
{
    if j < s.len() && is_digit(s[j]) {
        lemma_digit_end(s, j + 1);
    }
}

/// A decimal literal: an optional minus, digits, and an optional dot
/// followed by digits.
pub open spec fn is_num_lit(t: Seq<char>) -> bool {
    let body = if t.len() > 0 && t[0] == '-' {
        t.subrange(1, t.len() as int)
    } else {
        t
    };
    let e = digit_end(body, 0);
    &&& body.len() > 0
    &&& e > 0
    &&& if e == body.len() {
        true
    } else {
        body[e] == '.' && e + 1 < body.len() && digit_end(body, e + 1) == body.len()
    }
}

/// Every number-like token of `s` from position `i` on: digits with an
/// optional leading minus and an optional decimal part.
pub open spec fn nums_from(s: Seq<char>, i: int) -> Seq<Seq<char>>
    decreases s.len() - i
        when 0 <= i
        via Self_nums_from_decreases
{
    if i >= s.len() {
        Seq::empty()
    } else {
        let neg = s[i] == '-' && i + 1 < s.len() && is_digit(s[i + 1]);
        if is_digit(s[i]) || neg {
            let d0 = if neg {
                i + 1
            } else {
                i
            };
            let e1 = digit_end(s, d0);
            let e2 = if e1 < s.len() && s[e1] == '.' && e1 + 1 < s.len() && is_digit(
                s[e1 + 1],
            ) {
                digit_end(s, e1 + 1)
            } else {
                e1
            };
            seq![s.subrange(i, e2)] + nums_from(s, e2)
        } else {
            nums_from(s, i + 1)
        }
    }
}

#[via_fn]
proof fn Self_nums_from_decreases(s: Seq<char>, i: int) {
    if 0 <= i < s.len() {
        let neg = s[i] == '-' && i + 1 < s.len() && is_digit(s[i + 1]);
        if is_digit(s[i]) || neg {
            let d0 = if neg {
                i + 1
            } else {
                i
            };
            lemma_digit_end(s, d0);
            let e1 = digit_end(s, d0);
            if e1 < s.len() && s[e1] == '.' && e1 + 1 < s.len() && is_digit(s[e1 + 1]) {
                lemma_digit_end(s, e1 + 1);
            }
        }
    }
}

/// The first non-digit position at or after `j`.
#[verifier::loop_isolation(false)]
pub fn digit_end_exec(s: &Vec<char>, j: usize) -> (r: usize)
    requires
        j <= s@.len(),
    ensures
        r == digit_end(s@, j as int),
        j <= r <= s@.len(),
{
    let n = s.len();
    let mut k: usize = j;
    while k < n
        invariant
            j <= k <= n,
            digit_end(s@, j as int) == digit_end(s@, k as int),
        decreases n - k,
    {
        if !crate::text::digit(s[k]) {
            return k;
        }
        k = k + 1;
    }
    k
}

/// Whether a whole text is one decimal literal.
#[verifier::loop_isolation(false)]
pub fn is_num_lit_exec(t: &Vec<char>) -> (r: bool)
    ensures
        r == is_num_lit(t@),
{
    let n = t.len();
    let neg = n > 0 && t[0] == '-';
    let start: usize = if neg {
        1
    } else {
        0
    };
    let body = slice_range(t, start, n);
    proof {
        if neg {
            assert(body@ =~= t@.subrange(1, n as int));
        } else {
            assert(body@ =~= t@);
        }
    }
    let bn = body.len();
    if bn == 0 {
        return false;
    }
    let e = digit_end_exec(&body, 0);
    if e == 0 {
        return false;
    }
    if e == bn {
        return true;
    }
    body[e] == '.' && e + 1 < bn && digit_end_exec(&body, e + 1) == bn
}

/// All number-like tokens of the text, in order.
#[verifier::loop_isolation(false)]
pub fn find_all_numbers(text: &str) -> (r: Vec<String>)
    ensures
        r@.map_values(|x: String| x@) == nums_from(text@, 0),
{
    let s = chars_of(text);
    let n = s.len();
    let mut out: Vec<String> = Vec::new();
    let mut i: usize = 0;
    while i < n
        invariant
            n == s@.len(),
            0 <= i <= n,
            nums_from(s@, 0) == out@.map_values(|x: String| x@) + nums_from(s@, i as int),
        decreases n - i,
    {
        let neg = s[i] == '-' && i + 1 < n && crate::text::digit(s[i + 1]);
        if crate::text::digit(s[i]) || neg {
            let d0: usize = if neg {
                i + 1
            } else {
                i
            };
            let e1 = digit_end_exec(&s, d0);
            proof {
                lemma_digit_end(s@, d0 as int);
            }
            let e2: usize = if e1 < n && s[e1] == '.' && e1 + 1 < n && crate::text::digit(
                s[e1 + 1],
            ) {
                digit_end_exec(&s, e1 + 1)
            } else {
                e1
            };
            proof {
                if e1 < n && s@[e1 as int] == '.' && e1 + 1 < n && is_digit(s@[e1 + 1]) {
                    lemma_digit_end(s@, e1 + 1);
                }
            }
            let tok = slice_range(&s, i, e2);
            out.push(string_of(&tok));
            proof {
                assert(out@.map_values(|x: String| x@) =~= out@.map_values(
                    |x: String| x@,
                ).subrange(0, out@.len() - 1).push(tok@));
                assert(nums_from(s@, i as int) == seq![s@.subrange(i as int, e2 as int)]
                    + nums_from(s@, e2 as int));
                assert(nums_from(s@, 0) =~= out@.map_values(|x: String| x@) + nums_from(
                    s@,
                    e2 as int,
                ));
            }
            i = e2;
        } else {
            i = i + 1;
        }
    }
    proof {
        assert(nums_from(s@, 0) =~= out@.map_values(|x: String| x@));
    }
    out
}

/// The numerator of the first fraction `N/M` whose numerator is a valid
/// literal.
pub open spec fn fraction_spec(s: Seq<char>, i: int) -> Option<Seq<char>>
    decreases s.len() - i
        when 0 <= i
{
    if i >= s.len() {
        None
    } else if s[i] == '/' {
        let st = frac_start(s, i);
        if st < i && is_num_lit(s.subrange(st, i)) {
            Some(s.subrange(st, i))
        } else {
            fraction_spec(s, i + 1)
        }
    } else {
        fraction_spec(s, i + 1)
    }
}

/// The start of the numerator run (digits, dots, minus signs) before the
/// slash at `i`.
pub open spec fn frac_start(s: Seq<char>, i: int) -> int
    decreases i
        when i >= 0
{
    if i <= 0 {
        0
    } else {
        let c = s[i - 1];
        if is_digit(c) || c == '.' || c == '-' {
            frac_start(s, i - 1)
        } else {
            i
        }
    }
}

/// The numerator start lies between zero and the slash.
proof fn lemma_frac_start(s: Seq<char>, i: int)
    requires
        0 <= i,
    ensures
        0 <= frac_start(s, i) <= i,
    decreases i,
{
    if i > 0 {
        let c = s[i - 1];
        if is_digit(c) || c == '.' || c == '-' {
            lemma_frac_start(s, i - 1);
        }
    }
}

/// A character that may form part of a fraction's numerator.
fn numerator_char(c: char) -> (r: bool)
    ensures
        r == (is_digit(c) || c == '.' || c == '-'),
{
    crate::text::digit(c) || c == '.' || c == '-'
}

/// Extract the numerator from a fraction pattern like `8/10` or `8.5/10`.
#[verifier::loop_isolation(false)]
pub fn extract_fraction(s: &Vec<char>) -> (r: Option<String>)
    ensures
        match r {
            Some(t) => fraction_spec(s@, 0) == Some(t@),
            None => fraction_spec(s@, 0) is None,
        },
{
    let n = s.len();
    let mut i: usize = 0;
    while i < n
        invariant
            n == s@.len(),
            0 <= i <= n,
            fraction_spec(s@, 0) == fraction_spec(s@, i as int),
        decreases n - i,
    {
        if s[i] == '/' {
            proof {
                lemma_frac_start(s@, i as int);
            }
            let mut st: usize = i;
            while st > 0 && numerator_char(s[st - 1])
                invariant
                    0 <= st <= i,
                    frac_start(s@, i as int) == frac_start(s@, st as int),
                decreases st,
            {
                st = st - 1;
            }
            proof {
                assert(frac_start(s@, st as int) == st as int);
            }
            if st < i {
                let tok = slice_range(s, st, i);
                if is_num_lit_exec(&tok) {
                    return Some(string_of(&tok));
                }
            }
        }
        i = i + 1;
    }
    None
}

/// The labels that may announce the answer.
pub open spec fn label_seqs() -> Seq<Seq<char>> {
    seq!["score:"@, "rating:"@, "result:"@]
}

/// The first number after the first label that occurs in the lowered
/// text, if any label occurs and is followed by a number.
pub open spec fn labeled_spec(cleaned: Seq<char>, k: int) -> Option<Seq<char>>
    decreases 3 - k
        when 0 <= k
{
    if k >= 3 {
        None
    } else {
        let lab = label_seqs()[k];
        match find_from(lower_seq(cleaned), lab, 0) {
            Some(pos) => {
                let after = cleaned.subrange(pos + lab.len(), cleaned.len() as int);
                let nums = nums_from(after, 0);
                if nums.len() > 0 {
                    Some(nums[0])
                } else {
                    labeled_spec(cleaned, k + 1)
                }
            },
            None => labeled_spec(cleaned, k + 1),
        }
    }
}

/// What [`parse_number`] returns for a cleaned, non-empty response: the
/// whole text when it is itself a literal; else the first number after a
/// label; else a fraction's numerator; else the last number in the text.
pub open spec fn number_spec(cleaned: Seq<char>) -> Option<Seq<char>> {
    if is_num_lit(cleaned) {
        Some(cleaned)
    } else {
        match labeled_spec(cleaned, 0) {
            Some(t) => Some(t),
            None => match fraction_spec(cleaned, 0) {
                Some(t) => Some(t),
                None => {
                    let nums = nums_from(cleaned, 0);
                    if nums.len() > 0 {
                        Some(nums.last())
                    } else {
                        None
                    }
                },
            },
        }
    }
}

/// Extract a numeric value from an LLM response, as its literal text.
///
/// Handles direct numbers, `Score:`/`Rating:`/`Result:` labels, fraction
/// numerators, and prose (the last number wins).
#[verifier::loop_isolation(false)]
pub fn parse_number(response: &str) -> (r: Result<String, ParseError>)
    ensures
        preprocess_spec(response@).len() == 0 <==> r == Err::<String, ParseError>(
            ParseError::EmptyResponse,
        ),
        preprocess_spec(response@).len() > 0 ==> match number_spec(preprocess_spec(response@)) {
            Some(t) => r matches Ok(v) && v@ == t,
            None => r == Err::<String, ParseError>(ParseError::NoNumber),
        },
{
    let cleaned_s = preprocess(response);
    let cleaned = chars_of(cleaned_s.as_str());
    if cleaned.len() == 0 {
        return Err(ParseError::EmptyResponse);
    }
    if is_num_lit_exec(&cleaned) {
        return Ok(string_of(&cleaned));
    }
    // Labeled patterns.
    let lower = lower_chars(&cleaned);
    let labels = ["score:", "rating:", "result:"];
    let mut k: usize = 0;
    proof {
        reveal_strlit("score:");
        reveal_strlit("rating:");
        reveal_strlit("result:");
    }
    while k < 3
        invariant
            0 <= k <= 3,
            labeled_spec(cleaned@, 0) == labeled_spec(cleaned@, k as int),
            lower@ == lower_seq(cleaned@),
            cleaned@ == cleaned_s@,
        decreases 3 - k,
    {
        let lab = chars_of(labels[k]);
        proof {
            assert(lab@ == label_seqs()[k as int]);
        }
        match crate::text::find_sub(&lower, &lab) {
            Some(pos) => {
                let after = slice_range(&cleaned, pos + lab.len(), cleaned.len());
                let after_s = string_of(&after);
                let nums = find_all_numbers(after_s.as_str());
                if nums.len() > 0 {
                    let ghost ns = nums_from(after@, 0);
                    proof {
                        assert(ns[0] == nums@.map_values(|x: String| x@)[0]);
                    }
                    return Ok(crate::output_parser::error::string_from(nums[0].as_str()));
                }
            }
            None => {}
        }
        k = k + 1;
    }
    // Fraction numerator.
    match extract_fraction(&cleaned) {
        Some(t) => {
            return Ok(t);
        }
        None => {}
    }
    // Last number in the text.
    let nums = find_all_numbers(cleaned_s.as_str());
    if nums.len() > 0 {
        let ghost ns = nums_from(cleaned@, 0);
        proof {
            assert(ns.last() == nums@.map_values(|x: String| x@).last());
        }
        return Ok(crate::output_parser::error::string_from(nums[nums.len() - 1].as_str()));
    }
    Err(ParseError::NoNumber)
}

/// The value of a run of decimal digits.
pub open spec fn dig_val(s: Seq<char>) -> int
    decreases s.len(),
{
    if s.len() == 0 {
        0
    } else {
        10 * dig_val(s.drop_last()) + (s.last() as int - '0' as int)
    }
}

/// Whether a literal is negative.
pub open spec fn lit_neg(t: Seq<char>) -> bool {
    t.len() > 0 && t[0] == '-'
}

/// The digits of a literal without its sign.
pub open spec fn lit_body(t: Seq<char>) -> Seq<char> {
    if lit_neg(t) {
        t.subrange(1, t.len() as int)
    } else {
        t
    }
}

/// The integer part of a literal, as a mathematical integer.
pub open spec fn lit_ip(t: Seq<char>) -> int {
    let body = lit_body(t);
    dig_val(body.subrange(0, digit_end(body, 0)))
}

/// Whether the fractional part of a literal is non-zero.
pub open spec fn lit_frac_nonzero(t: Seq<char>) -> bool {
    let body = lit_body(t);
    let e = digit_end(body, 0);
    exists|j: int| e < j < body.len() && body[j] != '0' && is_digit(body[j])
}

/// Whether the rational value of a literal lies in `[min, max]`. Writing
/// the value as `s * (ip + f)` with sign `s`, integer part `ip` and
/// fractional part `0 <= f < 1`, the comparison against the integer
/// bounds reduces to `ip` and whether `f` is zero.
pub open spec fn in_range_spec(t: Seq<char>, min: i64, max: i64) -> bool {
    let ip = lit_ip(t);
    let fnz = lit_frac_nonzero(t);
    let ge_min = if lit_neg(t) {
        ip < -(min as int) || (ip == -(min as int) && !fnz)
    } else {
        ip >= min as int
    };
    let le_max = if lit_neg(t) {
        ip >= -(max as int)
    } else {
        ip < max as int || (ip == max as int && !fnz)
    };
    ge_min && le_max
}

/// Powers of ten.
pub open spec fn pow10(k: nat) -> int
    decreases k,
{
    if k == 0 {
        1
    } else {
        10 * pow10((k - 1) as nat)
    }
}

/// Powers of ten are positive.
pub proof fn lemma_pow10_pos(k: nat)
    ensures
        pow10(k) >= 1,
    decreases k,
{
    if k > 0 {
        lemma_pow10_pos((k - 1) as nat);
    }
}

/// The value of a digit run lies below the power of ten of its length.
pub proof fn lemma_dig_val_range(s: Seq<char>)
    requires
        forall|j: int| 0 <= j < s.len() ==> is_digit(s[j]),
    ensures
        0 <= dig_val(s) < pow10(s.len()),
    decreases s.len(),
{
    if s.len() == 0 {
    } else {
        assert(forall|j: int| 0 <= j < s.drop_last().len() ==> s.drop_last()[j] == s[j]);
        lemma_dig_val_range(s.drop_last());
        assert(s.last() as int - '0' as int <= 9);
        assert(pow10(s.len()) == 10 * pow10((s.len() - 1) as nat));
    }
}

/// The number of fractional digits of a literal.
pub open spec fn lit_fd(t: Seq<char>) -> nat {
    let body = lit_body(t);
    let e = digit_end(body, 0);
    if e == body.len() {
        0
    } else {
        (body.len() - e - 1) as nat
    }
}

/// The value of a literal's fractional digits.
pub open spec fn lit_frac_val(t: Seq<char>) -> int {
    let body = lit_body(t);
    let e = digit_end(body, 0);
    if e == body.len() {
        0
    } else {
        dig_val(body.subrange(e + 1, body.len() as int))
    }
}

/// The literal's value scaled to an integer: the signed numerator of
/// `value = signed_num / 10^fd`, read positionally from integer part and
/// fraction.
pub open spec fn lit_signed_num(t: Seq<char>) -> int {
    let mag = lit_ip(t) * pow10(lit_fd(t)) + lit_frac_val(t);
    if lit_neg(t) {
        -mag
    } else {
        mag
    }
}

/// A digit run's value only grows as digits are appended.
pub proof fn lemma_dig_val_prefix_le(s: Seq<char>, j: int)
    requires
        0 <= j <= s.len(),
        forall|i: int| 0 <= i < s.len() ==> is_digit(s[i]),
    ensures
        dig_val(s.subrange(0, j)) <= dig_val(s),
    decreases s.len() - j,
{
    if j == s.len() {
        assert(s.subrange(0, j) =~= s);
    } else {
        lemma_dig_val_prefix_le(s, j + 1);
        let p = s.subrange(0, j);
        let q = s.subrange(0, j + 1);
        assert(q.drop_last() =~= p);
        assert(forall|i: int| 0 <= i < p.len() ==> p[i] == s[i]);
        lemma_dig_val_nonneg(p);
        assert(dig_val(q) == 10 * dig_val(p) + (q.last() as int - '0' as int));
        assert(is_digit(q.last()));
    }
}

/// A zero-valued digit run has no non-zero digit.
proof fn lemma_dig_val_zero(s: Seq<char>)
    requires
        forall|j: int| 0 <= j < s.len() ==> is_digit(s[j]),
    ensures
        (dig_val(s) == 0) <==> (forall|j: int| 0 <= j < s.len() ==> s[j] == '0'),
    decreases s.len(),
{
    if s.len() > 0 {
        assert(forall|j: int| 0 <= j < s.drop_last().len() ==> s.drop_last()[j] == s[j]);
        lemma_dig_val_zero(s.drop_last());
        lemma_dig_val_range(s.drop_last());
        if dig_val(s) == 0 {
            assert(10 * dig_val(s.drop_last()) + (s.last() as int - '0' as int) == 0);
            assert(dig_val(s.drop_last()) == 0);
            assert(s.last() == '0');
        }
    }
}

/// Lower bound against an integer `b`: the scaled value reaches `b`
/// exactly when the integer part does, since the fraction is below one.
proof fn lemma_scaled_lower(ip: int, f: int, p: int, b: int)
    requires
        p >= 1,
        0 <= f < p,
    ensures
        (ip >= b) <==> (ip * p + f >= b * p),
{
    if ip >= b {
        assert(ip * p >= b * p) by (nonlinear_arith)
            requires
                ip >= b,
                p >= 1,
        ;
    }
    if ip * p + f >= b * p {
        if ip < b {
            assert(ip * p + f < (ip + 1) * p) by (nonlinear_arith)
                requires
                    0 <= f < p,
            ;
            assert((ip + 1) * p <= b * p) by (nonlinear_arith)
                requires
                    ip + 1 <= b,
                    p >= 1,
            ;
            assert((ip + 1) * p == ip * p + p) by (nonlinear_arith);
            assert(false);
        }
    }
}

/// Upper bound against an integer `b`: the scaled value stays within
/// `b` exactly when the integer part is below it, or equals it with no
/// fraction.
proof fn lemma_scaled_upper(ip: int, f: int, p: int, b: int)
    requires
        p >= 1,
        0 <= f < p,
    ensures
        (ip < b || (ip == b && f == 0)) <==> (ip * p + f <= b * p),
{
    if ip < b {
        assert(ip * p + f < (ip + 1) * p) by (nonlinear_arith)
            requires
                0 <= f < p,
        ;
        assert((ip + 1) * p <= b * p) by (nonlinear_arith)
            requires
                ip + 1 <= b,
                p >= 1,
        ;
        assert((ip + 1) * p == ip * p + p) by (nonlinear_arith);
    }
    if ip * p + f <= b * p {
        if ip > b {
            assert(ip * p >= (b + 1) * p) by (nonlinear_arith)
                requires
                    ip >= b + 1,
                    p >= 1,
            ;
            assert((b + 1) * p == b * p + p) by (nonlinear_arith);
            assert(f >= 0);
            assert(false);
        }
        if ip == b {
            assert(ip * p == b * p) by (nonlinear_arith)
                requires
                    ip == b,
            ;
        }
    }
}

/// The range test is exactly the rational comparison: the literal's
/// value lies in `[min, max]` precisely when its scaled numerator lies
/// between the equally scaled bounds.
pub proof fn lemma_in_range_exact(t: Seq<char>, min: i64, max: i64)
    requires
        is_num_lit(t),
    ensures
        in_range_spec(t, min, max) <==> (min * pow10(lit_fd(t)) <= lit_signed_num(t)
            && lit_signed_num(t) <= max * pow10(lit_fd(t))),
{
    let body = lit_body(t);
    let e = digit_end(body, 0);
    lemma_digit_end(body, 0);
    let ip = lit_ip(t);
    let fd = lit_fd(t);
    let p = pow10(fd);
    let f = lit_frac_val(t);
    lemma_pow10_pos(fd);
    lemma_dig_val_range(body.subrange(0, e));
    if e < body.len() {
        assert(body[e] == '.' && e + 1 < body.len());
        lemma_digit_end(body, e + 1);
        let frac = body.subrange(e + 1, body.len() as int);
        assert(forall|j: int| 0 <= j < frac.len() ==> frac[j] == body[e + 1 + j]);
        lemma_dig_val_range(frac);
        lemma_dig_val_zero(frac);
        assert(frac.len() == fd);
        assert(lit_frac_nonzero(t) <==> f != 0) by {
            if lit_frac_nonzero(t) {
                let j = choose|j: int|
                    e < j < body.len() && body[j] != '0' && is_digit(body[j]);
                assert(frac[j - e - 1] == body[j]);
                assert(!(forall|k: int| 0 <= k < frac.len() ==> frac[k] == '0'));
            }
            if f != 0 {
                let k = choose|k: int| 0 <= k < frac.len() && frac[k] != '0';
                assert(body[e + 1 + k] != '0' && is_digit(body[e + 1 + k]));
            }
        }
    } else {
        assert(!lit_frac_nonzero(t));
        assert(f == 0);
    }
    let fnz = lit_frac_nonzero(t);
    assert(0 <= f < p);
    assert(fnz <==> f != 0);
    assert(ip >= 0);
    let n = ip * p + f;
    if lit_neg(t) {
        lemma_scaled_lower(ip, f, p, -(min as int));
        lemma_scaled_upper(ip, f, p, -(min as int));
        lemma_scaled_lower(ip, f, p, -(max as int));
        lemma_scaled_upper(ip, f, p, -(max as int));
    } else {
        lemma_scaled_lower(ip, f, p, min as int);
        lemma_scaled_upper(ip, f, p, max as int);
    }
    if lit_neg(t) {
        assert(lit_signed_num(t) == -n);
        assert((min * p <= -n) <==> (n <= (-(min as int)) * p)) by (nonlinear_arith);
        assert((-n <= max * p) <==> (n >= (-(max as int)) * p)) by (nonlinear_arith);
    } else {
        assert(lit_signed_num(t) == n);
    }
}

/// A saturation bound above every `i64` magnitude.
pub open spec fn sat_cap() -> int {
    0x100000000000000000
}

/// The capped value of a run of digits.
#[verifier::loop_isolation(false)]
fn dig_val_capped(s: &Vec<char>, from: usize, to: usize) -> (r: u128)
    requires
        from <= to <= s@.len(),
        forall|j: int| from <= j < to ==> is_digit(s@[j]),
    ensures
        dig_val(s@.subrange(from as int, to as int)) < sat_cap() ==> r == dig_val(
            s@.subrange(from as int, to as int),
        ),
        dig_val(s@.subrange(from as int, to as int)) >= sat_cap() ==> r == sat_cap(),
{
    let mut acc: u128 = 0;
    let mut i: usize = from;
    proof {
        assert(s@.subrange(from as int, from as int) =~= Seq::<char>::empty());
    }
    while i < to
        invariant
            from <= i <= to,
            dig_val(s@.subrange(from as int, i as int)) < sat_cap() ==> acc == dig_val(
                s@.subrange(from as int, i as int),
            ),
            dig_val(s@.subrange(from as int, i as int)) >= sat_cap() ==> acc == sat_cap(),
            acc <= 0x100000000000000000,
            dig_val(s@.subrange(from as int, i as int)) >= 0,
        decreases to - i,
    {
        let c = s[i];
        let d = (c as u32) - ('0' as u32);
        proof {
            assert(is_digit(s@[i as int]));
            assert(d < 10);
            let pre = s@.subrange(from as int, i as int);
            let cur = s@.subrange(from as int, i + 1);
            assert(cur.drop_last() =~= pre);
            assert(cur.last() == c);
            assert(dig_val(cur) == 10 * dig_val(pre) + d);
            lemma_dig_val_nonneg(pre);
        }
        let wide: u128 = acc * 10 + (d as u128);
        acc = if wide > 0x100000000000000000u128 {
            0x100000000000000000u128
        } else {
            wide
        };
        i = i + 1;
    }
    acc
}

/// The value of a digit run is never negative.
proof fn lemma_dig_val_nonneg(s: Seq<char>)
    requires
        forall|j: int| 0 <= j < s.len() ==> is_digit(s[j]),
    ensures
        dig_val(s) >= 0,
    decreases s.len(),
{
    if s.len() > 0 {
        assert(forall|j: int| 0 <= j < s.drop_last().len() ==> s.drop_last()[j] == s[j]);
        lemma_dig_val_nonneg(s.drop_last());
    }
}

/// Whether the literal's value lies within `[min, max]`.
#[verifier::loop_isolation(false)]
pub fn lit_in_range(t: &Vec<char>, min: i64, max: i64) -> (r: bool)
    requires
        is_num_lit(t@),
    ensures
        r == in_range_spec(t@, min, max),
{
    let n = t.len();
    let neg = n > 0 && t[0] == '-';
    let start: usize = if neg {
        1
    } else {
        0
    };
    let body = slice_range(t, start, n);
    proof {
        if neg {
            assert(body@ =~= t@.subrange(1, n as int));
        } else {
            assert(body@ =~= t@);
        }
        lemma_digit_end(body@, 0);
    }
    let e = digit_end_exec(&body, 0);
    let ip = dig_val_capped(&body, 0, e);
    proof {
        assert(body@.subrange(0, e as int) == lit_body(t@).subrange(0, digit_end(
            lit_body(t@),
            0,
        )));
        lemma_dig_val_nonneg(body@.subrange(0, e as int));
    }
    // Whether any fractional digit is non-zero.
    let mut fnz = false;
    let bn = body.len();
    let mut j: usize = e;
    while j < bn
        invariant
            e <= j <= bn,
            bn == body@.len(),
            fnz == exists|k: int| e < k < j && body@[k] != '0' && is_digit(body@[k]),
        decreases bn - j,
    {
        if j > e && body[j] != '0' && crate::text::digit(body[j]) {
            fnz = true;
        }
        j = j + 1;
    }
    let ghost ipv = lit_ip(t@);
    let ge_min: bool = if neg {
        if min >= 0 {
            // a negative value is below a non-negative lower bound unless
            // both are zero
            min == 0 && ip == 0 && !fnz
        } else {
            let bound = (-(min as i128)) as u128;
            ip < bound || (ip == bound && !fnz)
        }
    } else {
        if min <= 0 {
            true
        } else {
            ip >= (min as u128)
        }
    };
    let le_max: bool = if neg {
        if max >= 0 {
            true
        } else {
            ip >= ((-(max as i128)) as u128)
        }
    } else {
        if max < 0 {
            false
        } else {
            ip < (max as u128) || (ip == (max as u128) && !fnz)
        }
    };
    proof {
        assert(ipv >= 0);
        assert(ipv < sat_cap() ==> ip == ipv);
        assert(ipv >= sat_cap() ==> ip == sat_cap());
        assert(sat_cap() > 0x8000000000000000);
    }
    ge_min && le_max
}

/// Extract a number and verify it falls within `[min, max]` inclusive;
/// out-of-range numbers are reported as [`ParseError::NoNumber`].
pub fn parse_number_in_range(response: &str, min: i64, max: i64) -> (r: Result<
    String,
    ParseError,
>)
    ensures
        preprocess_spec(response@).len() == 0 <==> r == Err::<String, ParseError>(
            ParseError::EmptyResponse,
        ),
        preprocess_spec(response@).len() > 0 ==> match number_spec(preprocess_spec(response@)) {
            Some(t) => if is_num_lit(t) && in_range_spec(t, min, max) {
                r matches Ok(v) && v@ == t
            } else {
                r == Err::<String, ParseError>(ParseError::NoNumber)
            },
            None => r == Err::<String, ParseError>(ParseError::NoNumber),
        },
{
    match parse_number(response) {
        Ok(v) => {
            let cs = chars_of(v.as_str());
            if is_num_lit_exec(&cs) && lit_in_range(&cs, min, max) {
                Ok(v)
            } else {
                Err(ParseError::NoNumber)
            }
        }
        Err(e) => Err(e),
    }
}

} // verus!
