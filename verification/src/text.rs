//! Character-level text utilities: conversions between `String` and
//! `Vec<char>`, ASCII character classes, substring search, and trimming.
//! The parsers operate on `Vec<char>` so that every scan is index-based.

use vstd::prelude::*;

verus! {

broadcast use vstd::string::group_string_axioms;

/// ASCII whitespace: space, tab, line feed, carriage return.
pub open spec fn is_ws(c: char) -> bool {
    c == ' ' || c == '\t' || c == '\n' || c == '\r'
}

/// ASCII decimal digit.
pub open spec fn is_digit(c: char) -> bool {
    '0' <= c && c <= '9'
}

/// ASCII letter.
pub open spec fn is_alpha(c: char) -> bool {
    ('a' <= c && c <= 'z') || ('A' <= c && c <= 'Z')
}

/// ASCII letter or digit.
pub open spec fn is_alnum(c: char) -> bool {
    is_alpha(c) || is_digit(c)
}

/// ASCII lower-casing of one character.
pub open spec fn lower_char(c: char) -> char {
    if 'A' <= c && c <= 'Z' {
        ((c as u8) + 32) as char
    } else {
        c
    }
}

/// Runtime test for [`is_ws`].
pub fn ws(c: char) -> (r: bool)
    ensures
        r == is_ws(c),
{
    c == ' ' || c == '\t' || c == '\n' || c == '\r'
}

/// Runtime test for [`is_digit`].
pub fn digit(c: char) -> (r: bool)
    ensures
        r == is_digit(c),
{
    '0' <= c && c <= '9'
}

/// Runtime test for [`is_alpha`].
pub fn alpha(c: char) -> (r: bool)
    ensures
        r == is_alpha(c),
{
    ('a' <= c && c <= 'z') || ('A' <= c && c <= 'Z')
}

/// Runtime test for [`is_alnum`].
pub fn alnum(c: char) -> (r: bool)
    ensures
        r == is_alnum(c),
{
    alpha(c) || digit(c)
}

/// Runtime ASCII lower-casing of one character.
pub fn lower(c: char) -> (r: char)
    ensures
        r == lower_char(c),
{
    if 'A' <= c && c <= 'Z' {
        ((c as u8) + 32) as char
    } else {
        c
    }
}

/// The characters of a string slice, in order.
///
/// Relies on `str::chars`, which yields the characters of the slice in
/// order; collecting them is the identity on the character sequence.
#[verifier::external_body]
pub fn chars_of(s: &str) -> (r: Vec<char>)
    ensures
        r@ == s@,
{
    s.chars().collect()
}

/// Appends one character to a string.
///
/// Relies on `String::push`, which appends the given character.
#[verifier::external_body]
fn push_char(s: &mut String, c: char)
    ensures
        final(s)@ == old(s)@.push(c),
{
    s.push(c);
}

/// A freshly allocated string holding exactly the given characters.
#[verifier::loop_isolation(false)]
pub fn string_of(v: &Vec<char>) -> (r: String)
    ensures
        r@ == v@,
{
    let mut r = String::new();
    let n = v.len();
    let mut i: usize = 0;
    while i < n
        invariant
            n == v@.len(),
            i <= n,
            r@ == v@.subrange(0, i as int),
        decreases n - i,
    {
        push_char(&mut r, v[i]);
        proof {
            assert(r@ =~= v@.subrange(0, i + 1));
        }
        i = i + 1;
    }
    proof {
        assert(v@.subrange(0, n as int) =~= v@);
    }
    r
}

/// `pat` occurs in `s` starting at `i`.
pub open spec fn match_at(s: Seq<char>, pat: Seq<char>, i: int) -> bool {
    0 <= i && i + pat.len() <= s.len() && s.subrange(i, i + pat.len()) == pat
}

/// `pat` occurs somewhere in `s` at or after `from`.
pub open spec fn has_sub_from(s: Seq<char>, pat: Seq<char>, from: int) -> bool {
    exists|i: int| from <= i && match_at(s, pat, i)
}

/// `pat` occurs somewhere in `s`.
pub open spec fn has_sub(s: Seq<char>, pat: Seq<char>) -> bool {
    has_sub_from(s, pat, 0)
}

/// The first index at or after `from` where `pat` occurs in `s`.
pub open spec fn find_from(s: Seq<char>, pat: Seq<char>, from: int) -> Option<int>
    decreases s.len() - from + 1
        when from >= 0
{
    if from + pat.len() > s.len() {
        None
    } else if match_at(s, pat, from) {
        Some(from)
    } else {
        find_from(s, pat, from + 1)
    }
}

/// What [`find_from`] returns: the first match at or after `from`, or
/// nothing when there is none.
pub proof fn lemma_find_from(s: Seq<char>, pat: Seq<char>, from: int)
    requires
        from >= 0,
    ensures
        match find_from(s, pat, from) {
            Some(i) => from <= i && match_at(s, pat, i) && forall|j: int|
                from <= j < i ==> !match_at(s, pat, j),
            None => forall|j: int| from <= j ==> !match_at(s, pat, j),
        },
    decreases s.len() - from + 1,
{
    if from + pat.len() > s.len() {
    } else if match_at(s, pat, from) {
    } else {
        lemma_find_from(s, pat, from + 1);
    }
}

/// Any result with the first-match properties is [`find_from`]'s result.
pub proof fn lemma_find_from_unique(s: Seq<char>, pat: Seq<char>, from: int, r: Option<int>)
    requires
        from >= 0,
        match r {
            Some(i) => from <= i && match_at(s, pat, i) && forall|j: int|
                from <= j < i ==> !match_at(s, pat, j),
            None => forall|j: int| from <= j ==> !match_at(s, pat, j),
        },
    ensures
        find_from(s, pat, from) == r,
{
    lemma_find_from(s, pat, from);
    match (r, find_from(s, pat, from)) {
        (Some(i), Some(k)) => {
            if i < k {
                assert(!match_at(s, pat, i));
            } else if k < i {
                assert(!match_at(s, pat, k));
            }
        }
        (Some(i), None) => {
            assert(!match_at(s, pat, i));
        }
        (None, Some(k)) => {
            assert(!match_at(s, pat, k));
        }
        (None, None) => {}
    }
}

/// Whether `pat` occurs in `s` starting exactly at `i`.
#[verifier::loop_isolation(false)]
pub fn matches_at(s: &Vec<char>, pat: &Vec<char>, i: usize) -> (r: bool)
    requires
        i + pat@.len() <= s@.len(),
    ensures
        r == match_at(s@, pat@, i as int),
{
    let n = s.len();
    let m = pat.len();
    let mut j: usize = 0;
    while j < m
        invariant
            n == s@.len(),
            m == pat@.len(),
            i + m <= s@.len(),
            j <= m,
            forall|k: int| 0 <= k < j ==> s@[i + k] == pat@[k],
        decreases m - j,
    {
        proof {
            assert(i + j < s@.len());
        }
        if s[i + j] != pat[j] {
            proof {
                assert(s@.subrange(i as int, i + pat@.len())[j as int] == s@[i + j]);
            }
            return false;
        }
        j = j + 1;
    }
    proof {
        assert(s@.subrange(i as int, i + pat@.len()) =~= pat@);
    }
    true
}

/// First occurrence of `pat` in `s` at or after `from`, if any.
#[verifier::loop_isolation(false)]
pub fn find_sub_from(s: &Vec<char>, pat: &Vec<char>, from: usize) -> (r: Option<usize>)
    ensures
        match r {
            Some(i) => from <= i && match_at(s@, pat@, i as int) && forall|j: int|
                from <= j < i ==> !match_at(s@, pat@, j),
            None => forall|j: int| from <= j ==> !match_at(s@, pat@, j),
        },
        match r {
            Some(i) => find_from(s@, pat@, from as int) == Some(i as int),
            None => find_from(s@, pat@, from as int) is None,
        },
{
    let n = s.len();
    let m = pat.len();
    if m > n || from > n - m {
        proof {
            assert(forall|j: int| j >= from ==> !match_at(s@, pat@, j));
            lemma_find_from_unique(s@, pat@, from as int, None);
        }
        return None;
    }
    let limit = n - m;
    let mut i: usize = from;
    while i < limit
        invariant
            from <= i <= limit,
            forall|j: int| from <= j < i ==> !match_at(s@, pat@, j),
        decreases limit - i,
    {
        if matches_at(s, pat, i) {
            proof {
                lemma_find_from_unique(s@, pat@, from as int, Some(i as int));
            }
            return Some(i);
        }
        i = i + 1;
    }
    if matches_at(s, pat, limit) {
        proof {
            lemma_find_from_unique(s@, pat@, from as int, Some(limit as int));
        }
        return Some(limit);
    }
    proof {
        assert(forall|j: int| j >= from ==> !match_at(s@, pat@, j));
        lemma_find_from_unique(s@, pat@, from as int, None);
    }
    None
}

/// First occurrence of `pat` in `s`, if any.
pub fn find_sub(s: &Vec<char>, pat: &Vec<char>) -> (r: Option<usize>)
    ensures
        match r {
            Some(i) => match_at(s@, pat@, i as int) && forall|j: int|
                0 <= j < i ==> !match_at(s@, pat@, j),
            None => !has_sub(s@, pat@),
        },
        match r {
            Some(i) => find_from(s@, pat@, 0) == Some(i as int),
            None => find_from(s@, pat@, 0) is None,
        },
{
    find_sub_from(s, pat, 0)
}

/// A one-character pattern occurs at `i` exactly when that character
/// stands at `i`.
pub proof fn lemma_match_single(s: Seq<char>, c: char, i: int)
    ensures
        match_at(s, seq![c], i) <==> (0 <= i < s.len() && s[i] == c),
{
    if 0 <= i < s.len() && s[i] == c {
        assert(s.subrange(i, i + 1) =~= seq![c]);
    }
    if match_at(s, seq![c], i) {
        assert(s.subrange(i, i + 1)[0] == s[i]);
    }
}

/// First occurrence of the character `c` at or after `from`, if any.
#[verifier::loop_isolation(false)]
pub fn find_char_from(s: &Vec<char>, c: char, from: usize) -> (r: Option<usize>)
    ensures
        match r {
            Some(i) => from <= i < s@.len() && s@[i as int] == c && forall|j: int|
                from <= j < i ==> s@[j] != c,
            None => forall|j: int| from <= j < s@.len() ==> s@[j] != c,
        },
{
    let n = s.len();
    let mut i: usize = from;
    if from > n {
        return None;
    }
    while i < n
        invariant
            n == s@.len(),
            from <= i <= n,
            forall|j: int| from <= j < i ==> s@[j] != c,
        decreases n - i,
    {
        if s[i] == c {
            return Some(i);
        }
        i = i + 1;
    }
    None
}

/// The subrange `[from, to)` of `s` as a fresh vector.
#[verifier::loop_isolation(false)]
pub fn slice_range(s: &Vec<char>, from: usize, to: usize) -> (r: Vec<char>)
    requires
        from <= to <= s@.len(),
    ensures
        r@ == s@.subrange(from as int, to as int),
{
    let mut r: Vec<char> = Vec::new();
    let mut i: usize = from;
    while i < to
        invariant
            from <= i <= to <= s@.len(),
            r@ == s@.subrange(from as int, i as int),
        decreases to - i,
    {
        r.push(s[i]);
        proof {
            assert(r@ =~= s@.subrange(from as int, i + 1));
        }
        i = i + 1;
    }
    r
}

/// `s` with every character of `t` appended.
#[verifier::loop_isolation(false)]
pub fn append_all(s: &mut Vec<char>, t: &Vec<char>)
    ensures
        final(s)@ == old(s)@ + t@,
{
    let n = t.len();
    let mut i: usize = 0;
    while i < n
        invariant
            n == t@.len(),
            i <= n,
            s@ == old(s)@ + t@.subrange(0, i as int),
        decreases n - i,
    {
        s.push(t[i]);
        proof {
            assert(s@ =~= old(s)@ + t@.subrange(0, i + 1));
        }
        i = i + 1;
    }
    proof {
        assert(old(s)@ + t@.subrange(0, n as int) =~= old(s)@ + t@);
    }
}

/// Length of the leading run of ASCII whitespace.
pub open spec fn ws_prefix(s: Seq<char>) -> int
    decreases s.len(),
{
    if s.len() > 0 && is_ws(s[0]) {
        1 + ws_prefix(s.drop_first())
    } else {
        0
    }
}

/// Length of the trailing run of ASCII whitespace.
pub open spec fn ws_suffix(s: Seq<char>) -> int
    decreases s.len(),
{
    if s.len() > 0 && is_ws(s.last()) {
        1 + ws_suffix(s.drop_last())
    } else {
        0
    }
}

/// `s` without leading and trailing ASCII whitespace.
pub open spec fn trim_spec(s: Seq<char>) -> Seq<char> {
    if ws_prefix(s) == s.len() {
        Seq::empty()
    } else {
        s.subrange(ws_prefix(s), s.len() - ws_suffix(s))
    }
}

/// The whitespace prefix is no longer than the text, and every character
/// before it is whitespace while the one at its end (if any) is not.
pub proof fn lemma_ws_prefix(s: Seq<char>)
    ensures
        0 <= ws_prefix(s) <= s.len(),
        forall|j: int| 0 <= j < ws_prefix(s) ==> is_ws(s[j]),
        ws_prefix(s) < s.len() ==> !is_ws(s[ws_prefix(s)]),
    decreases s.len(),
{
    if s.len() > 0 && is_ws(s[0]) {
        lemma_ws_prefix(s.drop_first());
        assert forall|j: int| 0 <= j < ws_prefix(s) implies is_ws(s[j]) by {
            if j >= 1 {
                assert(is_ws(s.drop_first()[j - 1]));
            }
        }
    }
}

/// The mirror of [`lemma_ws_prefix`] for the suffix.
pub proof fn lemma_ws_suffix(s: Seq<char>)
    ensures
        0 <= ws_suffix(s) <= s.len(),
        forall|j: int| s.len() - ws_suffix(s) <= j < s.len() ==> is_ws(s[j]),
        ws_suffix(s) < s.len() ==> !is_ws(s[s.len() - ws_suffix(s) - 1]),
    decreases s.len(),
{
    if s.len() > 0 && is_ws(s.last()) {
        lemma_ws_suffix(s.drop_last());
        let t = s.drop_last();
        assert(forall|j: int| 0 <= j < t.len() ==> t[j] == s[j]);
    }
}

/// `s` without leading and trailing ASCII whitespace, as a fresh vector.
#[verifier::loop_isolation(false)]
pub fn trim_chars(s: &Vec<char>) -> (r: Vec<char>)
    ensures
        r@ == trim_spec(s@),
{
    let n = s.len();
    proof {
        lemma_ws_prefix(s@);
        lemma_ws_suffix(s@);
    }
    let mut a: usize = 0;
    while a < n && ws(s[a])
        invariant
            n == s@.len(),
            0 <= a <= n,
            forall|j: int| 0 <= j < a ==> is_ws(s@[j]),
        decreases n - a,
    {
        a = a + 1;
    }
    if a == n {
        proof {
            lemma_ws_prefix_full(s@, a as int);
        }
        let r: Vec<char> = Vec::new();
        return r;
    }
    let mut b: usize = n;
    while b > a && ws(s[b - 1])
        invariant
            n == s@.len(),
            a <= b <= n,
            a < n,
            !is_ws(s@[a as int]),
            forall|j: int| b <= j < n ==> is_ws(s@[j]),
        decreases b,
    {
        b = b - 1;
    }
    proof {
        lemma_ws_prefix_exact(s@, a as int);
        lemma_ws_suffix_exact(s@, (n - b) as int);
    }
    slice_range(s, a, b)
}

/// If the first `k` characters are whitespace and `k` is the length,
/// the whitespace prefix is the whole of `s`.
proof fn lemma_ws_prefix_full(s: Seq<char>, k: int)
    requires
        k == s.len(),
        forall|j: int| 0 <= j < k ==> is_ws(s[j]),
    ensures
        ws_prefix(s) == s.len(),
    decreases s.len(),
{
    if s.len() > 0 {
        assert(is_ws(s[0]));
        lemma_ws_prefix_full(s.drop_first(), k - 1);
    }
}

/// A run of whitespace of length `k` followed by a non-whitespace
/// character is exactly the whitespace prefix.
proof fn lemma_ws_prefix_exact(s: Seq<char>, k: int)
    requires
        0 <= k < s.len(),
        forall|j: int| 0 <= j < k ==> is_ws(s[j]),
        !is_ws(s[k]),
    ensures
        ws_prefix(s) == k,
    decreases s.len(),
{
    if k > 0 {
        lemma_ws_prefix_exact(s.drop_first(), k - 1);
    }
}

/// A run of trailing whitespace of length `k` preceded by a
/// non-whitespace character is exactly the whitespace suffix.
proof fn lemma_ws_suffix_exact(s: Seq<char>, k: int)
    requires
        0 <= k < s.len(),
        forall|j: int| s.len() - k <= j < s.len() ==> is_ws(s[j]),
        !is_ws(s[s.len() - k - 1]),
    ensures
        ws_suffix(s) == k,
    decreases s.len(),
{
    if k > 0 {
        let t = s.drop_last();
        assert(forall|j: int| 0 <= j < t.len() ==> t[j] == s[j]);
        lemma_ws_suffix_exact(t, k - 1);
    }
}

/// Trimming is idempotent: the trimmed text has no leading or trailing
/// whitespace left to remove.
pub proof fn lemma_trim_idempotent(s: Seq<char>)
    ensures
        trim_spec(trim_spec(s)) == trim_spec(s),
{
    lemma_ws_prefix(s);
    lemma_ws_suffix(s);
    let t = trim_spec(s);
    if ws_prefix(s) == s.len() {
        assert(t.len() == 0);
        assert(ws_prefix(t) == 0);
        assert(trim_spec(t) =~= t);
    } else {
        let a = ws_prefix(s);
        let b = s.len() - ws_suffix(s);
        if a < b {
            assert(!is_ws(t[0]));
            assert(ws_prefix(t) == 0) by {
                if t.len() > 0 && is_ws(t[0]) {
                }
            }
            assert(!is_ws(t.last())) by {
                lemma_ws_suffix(s);
                assert(t.last() == s[b - 1]);
                if ws_suffix(s) == 0 {
                    assert(b - 1 == s.len() - ws_suffix(s) - 1);
                } else {
                    assert(ws_suffix(s) < s.len());
                    assert(b - 1 == s.len() - ws_suffix(s) - 1);
                }
            }
            assert(ws_suffix(t) == 0) by {
                if t.len() > 0 && is_ws(t.last()) {
                }
            }
            assert(trim_spec(t) =~= t);
        } else {
            assert(a >= b);
            assert(forall|j: int| 0 <= j < s.len() - ws_suffix(s) ==> is_ws(s[j]));
            assert(forall|j: int| 0 <= j < s.len() ==> is_ws(s[j]));
            lemma_ws_prefix_full(s, s.len() as int);
            assert(false);
        }
    }
}

/// Move every event of `src` to the end of `dst`.
#[verifier::loop_isolation(false)]
pub fn append_all_events(dst: &mut Vec<crate::events::Event>, src: Vec<crate::events::Event>)
    ensures
        final(dst)@ == old(dst)@ + src@,
{
    let mut src = src;
    let ghost orig = src@;
    let n = src.len();
    let mut i: usize = 0;
    proof {
        assert(dst@ + orig.subrange(0, 0) =~= dst@);
    }
    while i < n
        invariant
            0 <= i <= n,
            n == orig.len(),
            src@ =~= orig.subrange(i as int, n as int),
            dst@ == old(dst)@ + orig.subrange(0, i as int),
        decreases n - i,
    {
        proof {
            assert(src@[0] == orig[i as int]);
        }
        let e = src.remove(0);
        dst.push(e);
        proof {
            assert(dst@ =~= old(dst)@ + orig.subrange(0, i + 1));
            assert(src@ =~= orig.subrange(i + 1, n as int));
        }
        i = i + 1;
    }
    proof {
        assert(orig.subrange(0, n as int) =~= orig);
    }
}

} // verus!
