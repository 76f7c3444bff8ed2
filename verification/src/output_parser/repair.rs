//! Deterministic JSON repair for common LLM output errors: a sequence of
//! heuristic string rewrites, accepted only when the result parses. No
//! regex is used — every pass is a single scan with a string-awareness
//! state.

use vstd::prelude::*;
use crate::text::{chars_of, is_alnum, is_alpha, is_ws, match_at, string_of};
use crate::json::json_parse_ok;

verus! {

/// Where a scan stands relative to string literals and comments.
pub enum ScanMode {
    /// Outside any string literal.
    Code,
    /// Inside a double-quoted string.
    Str,
    /// Inside a string, right after a backslash.
    StrEsc,
    /// Inside a `//` line comment.
    Line,
    /// Inside a `/* */` block comment.
    Block,
}

/// A measure that shrinks on the one transition that does not consume a
/// character (leaving a block comment at the last character).
pub open spec fn mode_rank(m: ScanMode) -> int {
    match m {
        ScanMode::Block => 1,
        _ => 0,
    }
}

/// Comment stripping from position `i` in mode `m`: `//` to end of line
/// and `/* */` removed outside strings.
pub open spec fn strip_comments_from(s: Seq<char>, i: int, m: ScanMode) -> Seq<char>
    decreases s.len() - i, mode_rank(m)
        when 0 <= i
{
    if i >= s.len() {
        Seq::empty()
    } else {
        let c = s[i];
        match m {
            ScanMode::StrEsc => seq![c] + strip_comments_from(s, i + 1, ScanMode::Str),
            ScanMode::Str => if c == '\\' {
                seq![c] + strip_comments_from(s, i + 1, ScanMode::StrEsc)
            } else if c == '"' {
                seq![c] + strip_comments_from(s, i + 1, ScanMode::Code)
            } else {
                seq![c] + strip_comments_from(s, i + 1, ScanMode::Str)
            },
            ScanMode::Code => if c == '"' {
                seq![c] + strip_comments_from(s, i + 1, ScanMode::Str)
            } else if c == '/' && i + 1 < s.len() && s[i + 1] == '/' {
                strip_comments_from(s, i + 2, ScanMode::Line)
            } else if c == '/' && i + 1 < s.len() && s[i + 1] == '*' {
                strip_comments_from(s, i + 2, ScanMode::Block)
            } else {
                seq![c] + strip_comments_from(s, i + 1, ScanMode::Code)
            },
            ScanMode::Line => if c == '\n' {
                seq![c] + strip_comments_from(s, i + 1, ScanMode::Code)
            } else {
                strip_comments_from(s, i + 1, ScanMode::Line)
            },
            ScanMode::Block => if c == '*' && i + 1 < s.len() && s[i + 1] == '/' {
                strip_comments_from(s, i + 2, ScanMode::Code)
            } else if i + 1 < s.len() {
                strip_comments_from(s, i + 1, ScanMode::Block)
            } else {
                strip_comments_from(s, i, ScanMode::Code)
            },
        }
    }
}

/// What the comment pass computes on a whole text.
pub open spec fn strip_comments_spec(s: Seq<char>) -> Seq<char> {
    strip_comments_from(s, 0, ScanMode::Code)
}

/// Strip `// ...` and `/* ... */` comments, avoiding strings.
#[verifier::loop_isolation(false)]
pub fn strip_comments(s: &Vec<char>) -> (r: Vec<char>)
    ensures
        r@ == strip_comments_spec(s@),
{
    let n = s.len();
    let mut out: Vec<char> = Vec::new();
    let mut i: usize = 0;
    let mut m = ScanMode::Code;
    while i < n
        invariant
            n == s@.len(),
            0 <= i <= n,
            strip_comments_spec(s@) == out@ + strip_comments_from(s@, i as int, m),
        decreases n - i, mode_rank(m),
    {
        let c = s[i];
        match m {
            ScanMode::StrEsc => {
                out.push(c);
                m = ScanMode::Str;
                i = i + 1;
            }
            ScanMode::Str => {
                out.push(c);
                if c == '\\' {
                    m = ScanMode::StrEsc;
                } else if c == '"' {
                    m = ScanMode::Code;
                }
                i = i + 1;
            }
            ScanMode::Code => {
                if c == '"' {
                    out.push(c);
                    m = ScanMode::Str;
                    i = i + 1;
                } else if c == '/' && i + 1 < n && s[i + 1] == '/' {
                    m = ScanMode::Line;
                    i = i + 2;
                } else if c == '/' && i + 1 < n && s[i + 1] == '*' {
                    m = ScanMode::Block;
                    i = i + 2;
                } else {
                    out.push(c);
                    i = i + 1;
                }
            }
            ScanMode::Line => {
                if c == '\n' {
                    out.push(c);
                    m = ScanMode::Code;
                }
                i = i + 1;
            }
            ScanMode::Block => {
                if c == '*' && i + 1 < n && s[i + 1] == '/' {
                    m = ScanMode::Code;
                    i = i + 2;
                } else if i + 1 < n {
                    i = i + 1;
                } else {
                    m = ScanMode::Code;
                }
            }
        }
        proof {
            assert(strip_comments_spec(s@) =~= out@ + strip_comments_from(s@, i as int, m));
        }
    }
    proof {
        assert(strip_comments_spec(s@) =~= out@);
    }
    out
}

/// A word stands at `i` with no letter or digit on either side.
pub open spec fn word_at(s: Seq<char>, w: Seq<char>, i: int) -> bool {
    &&& match_at(s, w, i)
    &&& (i == 0 || !is_alnum(s[i - 1]))
    &&& (i + w.len() == s.len() || !is_alnum(s[i + w.len()]))
}

/// The Python-literal pass from position `i`: word-boundaried `True`,
/// `False`, `None` become `true`, `false`, `null` outside strings.
pub open spec fn python_lits_from(s: Seq<char>, i: int, m: ScanMode) -> Seq<char>
    decreases s.len() - i
        when 0 <= i
        via Self_python_lits_decreases
{
    if i >= s.len() {
        Seq::empty()
    } else {
        let c = s[i];
        match m {
            ScanMode::StrEsc => seq![c] + python_lits_from(s, i + 1, ScanMode::Str),
            ScanMode::Str => if c == '\\' {
                seq![c] + python_lits_from(s, i + 1, ScanMode::StrEsc)
            } else if c == '"' {
                seq![c] + python_lits_from(s, i + 1, ScanMode::Code)
            } else {
                seq![c] + python_lits_from(s, i + 1, ScanMode::Str)
            },
            _ => if c == '"' {
                seq![c] + python_lits_from(s, i + 1, ScanMode::Str)
            } else if word_at(s, "True"@, i) {
                "true"@ + python_lits_from(s, i + 4, ScanMode::Code)
            } else if word_at(s, "False"@, i) {
                "false"@ + python_lits_from(s, i + 5, ScanMode::Code)
            } else if word_at(s, "None"@, i) {
                "null"@ + python_lits_from(s, i + 4, ScanMode::Code)
            } else {
                seq![c] + python_lits_from(s, i + 1, ScanMode::Code)
            },
        }
    }
}

#[via_fn]
proof fn Self_python_lits_decreases(s: Seq<char>, i: int, m: ScanMode) {
    reveal_strlit("True");
    reveal_strlit("False");
    reveal_strlit("None");
}

/// What the Python-literal pass computes on a whole text.
pub open spec fn python_lits_spec(s: Seq<char>) -> Seq<char> {
    python_lits_from(s, 0, ScanMode::Code)
}

/// Whether the word `w` stands at `i` with word boundaries on both sides.
#[verifier::loop_isolation(false)]
fn word_at_exec(s: &Vec<char>, w: &Vec<char>, i: usize) -> (r: bool)
    requires
        i < s@.len(),
    ensures
        r == word_at(s@, w@, i as int),
{
    let n = s.len();
    let m = w.len();
    if m > n - i {
        proof {
            assert(!match_at(s@, w@, i as int));
        }
        return false;
    }
    if !crate::text::matches_at(s, w, i) {
        return false;
    }
    if i > 0 && crate::text::alnum(s[i - 1]) {
        return false;
    }
    if i + m < n && crate::text::alnum(s[i + m]) {
        return false;
    }
    true
}

/// Replace Python-style `True`, `False`, `None` with JSON equivalents,
/// outside strings and only at word boundaries.
#[verifier::loop_isolation(false)]
pub fn replace_python_literals(s: &Vec<char>) -> (r: Vec<char>)
    ensures
        r@ == python_lits_spec(s@),
{
    proof {
        reveal_strlit("True");
        reveal_strlit("true");
        reveal_strlit("False");
        reveal_strlit("false");
        reveal_strlit("None");
        reveal_strlit("null");
    }
    let w_true = chars_of("True");
    let w_false = chars_of("False");
    let w_none = chars_of("None");
    let r_true = chars_of("true");
    let r_false = chars_of("false");
    let r_null = chars_of("null");
    let n = s.len();
    let mut out: Vec<char> = Vec::new();
    let mut i: usize = 0;
    let mut m = ScanMode::Code;
    while i < n
        invariant
            n == s@.len(),
            0 <= i <= n,
            m is Code || m is Str || m is StrEsc,
            python_lits_spec(s@) == out@ + python_lits_from(s@, i as int, m),
        decreases n - i,
    {
        let c = s[i];
        match m {
            ScanMode::StrEsc => {
                out.push(c);
                m = ScanMode::Str;
                i = i + 1;
            }
            ScanMode::Str => {
                out.push(c);
                if c == '\\' {
                    m = ScanMode::StrEsc;
                } else if c == '"' {
                    m = ScanMode::Code;
                }
                i = i + 1;
            }
            _ => {
                if c == '"' {
                    out.push(c);
                    m = ScanMode::Str;
                    i = i + 1;
                } else if word_at_exec(s, &w_true, i) {
                    crate::text::append_all(&mut out, &r_true);
                    i = i + 4;
                } else if word_at_exec(s, &w_false, i) {
                    crate::text::append_all(&mut out, &r_false);
                    i = i + 5;
                } else if word_at_exec(s, &w_none, i) {
                    crate::text::append_all(&mut out, &r_null);
                    i = i + 4;
                } else {
                    out.push(c);
                    m = ScanMode::Code;
                    i = i + 1;
                }
            }
        }
        proof {
            assert(python_lits_spec(s@) =~= out@ + python_lits_from(s@, i as int, m));
        }
    }
    proof {
        assert(python_lits_spec(s@) =~= out@);
    }
    out
}

/// The first index at or after `j` holding a non-whitespace character, or
/// the length of `s`.
pub open spec fn next_non_ws(s: Seq<char>, j: int) -> int
    decreases s.len() - j
        when 0 <= j
{
    if j >= s.len() {
        s.len() as int
    } else if is_ws(s[j]) {
        next_non_ws(s, j + 1)
    } else {
        j
    }
}

/// The trailing-comma pass from position `i`: a comma whose next
/// non-whitespace character is `}` or `]` is dropped, outside strings.
pub open spec fn drop_commas_from(s: Seq<char>, i: int, m: ScanMode) -> Seq<char>
    decreases s.len() - i
        when 0 <= i
{
    if i >= s.len() {
        Seq::empty()
    } else {
        let c = s[i];
        match m {
            ScanMode::StrEsc => seq![c] + drop_commas_from(s, i + 1, ScanMode::Str),
            ScanMode::Str => if c == '\\' {
                seq![c] + drop_commas_from(s, i + 1, ScanMode::StrEsc)
            } else if c == '"' {
                seq![c] + drop_commas_from(s, i + 1, ScanMode::Code)
            } else {
                seq![c] + drop_commas_from(s, i + 1, ScanMode::Str)
            },
            _ => if c == '"' {
                seq![c] + drop_commas_from(s, i + 1, ScanMode::Str)
            } else if c == ',' && {
                let k = next_non_ws(s, i + 1);
                k < s.len() && (s[k] == '}' || s[k] == ']')
            } {
                drop_commas_from(s, i + 1, ScanMode::Code)
            } else {
                seq![c] + drop_commas_from(s, i + 1, ScanMode::Code)
            },
        }
    }
}

/// What the trailing-comma pass computes on a whole text.
pub open spec fn drop_commas_spec(s: Seq<char>) -> Seq<char> {
    drop_commas_from(s, 0, ScanMode::Code)
}

/// The first non-whitespace position at or after `j`.
#[verifier::loop_isolation(false)]
fn next_non_ws_exec(s: &Vec<char>, j: usize) -> (r: usize)
    requires
        j <= s@.len(),
    ensures
        r == next_non_ws(s@, j as int),
        j <= r <= s@.len(),
{
    let n = s.len();
    let mut k: usize = j;
    while k < n
        invariant
            j <= k <= n,
            next_non_ws(s@, j as int) == next_non_ws(s@, k as int),
        decreases n - k,
    {
        if !crate::text::ws(s[k]) {
            return k;
        }
        k = k + 1;
    }
    k
}

/// Remove commas that stand, up to whitespace, before `}` or `]`.
#[verifier::loop_isolation(false)]
pub fn remove_trailing_commas(s: &Vec<char>) -> (r: Vec<char>)
    ensures
        r@ == drop_commas_spec(s@),
{
    let n = s.len();
    let mut out: Vec<char> = Vec::new();
    let mut i: usize = 0;
    let mut m = ScanMode::Code;
    while i < n
        invariant
            n == s@.len(),
            0 <= i <= n,
            m is Code || m is Str || m is StrEsc,
            drop_commas_spec(s@) == out@ + drop_commas_from(s@, i as int, m),
        decreases n - i,
    {
        let c = s[i];
        match m {
            ScanMode::StrEsc => {
                out.push(c);
                m = ScanMode::Str;
            }
            ScanMode::Str => {
                out.push(c);
                if c == '\\' {
                    m = ScanMode::StrEsc;
                } else if c == '"' {
                    m = ScanMode::Code;
                }
            }
            _ => {
                if c == '"' {
                    out.push(c);
                    m = ScanMode::Str;
                } else if c == ',' {
                    let k = next_non_ws_exec(s, i + 1);
                    if k < n && (s[k] == '}' || s[k] == ']') {
                    } else {
                        out.push(c);
                    }
                    m = ScanMode::Code;
                } else {
                    out.push(c);
                    m = ScanMode::Code;
                }
            }
        }
        i = i + 1;
        proof {
            assert(drop_commas_spec(s@) =~= out@ + drop_commas_from(s@, i as int, m));
        }
    }
    proof {
        assert(drop_commas_spec(s@) =~= out@);
    }
    out
}

/// The last index at or below `j` holding a non-whitespace character, or
/// zero.
pub open spec fn prev_non_ws(s: Seq<char>, j: int) -> int
    decreases j
        when j < s.len()
{
    if j <= 0 {
        0
    } else if is_ws(s[j]) {
        prev_non_ws(s, j - 1)
    } else {
        j
    }
}

/// The character before `i` suggests the start of a string value: the
/// text begins there, or only whitespace precedes it, or a structural
/// character does.
pub open spec fn sq_boundary_before(s: Seq<char>, i: int) -> bool {
    if i == 0 {
        true
    } else {
        let j = prev_non_ws(s, i - 1);
        (j == 0 && is_ws(s[j])) || s[j] == '{' || s[j] == '[' || s[j] == ':' || s[j] == ','
    }
}

/// The character after `i` suggests the end of a string value.
pub open spec fn sq_boundary_after(s: Seq<char>, i: int) -> bool {
    if i + 1 >= s.len() {
        true
    } else {
        let k = next_non_ws(s, i + 1);
        k >= s.len() || s[k] == '}' || s[k] == ']' || s[k] == ':' || s[k] == ','
    }
}

/// The closing single quote for a string opened before `j`, skipping
/// backslash pairs.
pub open spec fn find_close_sq(s: Seq<char>, j: int) -> Option<int>
    decreases s.len() - j + 2
        when 0 <= j
{
    if j >= s.len() {
        None
    } else if s[j] == '\\' {
        find_close_sq(s, j + 2)
    } else if s[j] == '\'' {
        Some(j)
    } else {
        find_close_sq(s, j + 1)
    }
}

/// A found closing quote lies at or after the search start.
pub proof fn lemma_find_close_sq_ge(s: Seq<char>, j: int)
    requires
        0 <= j,
        find_close_sq(s, j) is Some,
    ensures
        j <= find_close_sq(s, j)->Some_0 < s.len(),
    decreases s.len() - j + 2,
{
    if j >= s.len() {
    } else if s[j] == '\\' {
        lemma_find_close_sq_ge(s, j + 2);
    } else if s[j] == '\'' {
    } else {
        lemma_find_close_sq_ge(s, j + 1);
    }
}

/// A single-quoted body converted for double quotes: interior double
/// quotes gain a backslash.
pub open spec fn sq_conv(t: Seq<char>) -> Seq<char>
    decreases t.len(),
{
    if t.len() == 0 {
        Seq::empty()
    } else {
        sq_conv(t.drop_last()) + (if t.last() == '"' {
            seq!['\\', '"']
        } else {
            seq![t.last()]
        })
    }
}

/// The single-quote pass from position `i`: a single-quoted string whose
/// ends look like value boundaries becomes double-quoted, outside
/// double-quoted strings.
pub open spec fn single_quotes_from(s: Seq<char>, i: int, m: ScanMode) -> Seq<char>
    decreases s.len() - i
        when 0 <= i
        via Self_single_quotes_decreases
{
    if i >= s.len() {
        Seq::empty()
    } else {
        let c = s[i];
        match m {
            ScanMode::StrEsc => seq![c] + single_quotes_from(s, i + 1, ScanMode::Str),
            ScanMode::Str => if c == '\\' {
                seq![c] + single_quotes_from(s, i + 1, ScanMode::StrEsc)
            } else if c == '"' {
                seq![c] + single_quotes_from(s, i + 1, ScanMode::Code)
            } else {
                seq![c] + single_quotes_from(s, i + 1, ScanMode::Str)
            },
            _ => if c == '"' {
                seq![c] + single_quotes_from(s, i + 1, ScanMode::Str)
            } else if c == '\'' && sq_boundary_before(s, i) && find_close_sq(s, i + 1) is Some
                && sq_boundary_after(s, find_close_sq(s, i + 1)->Some_0) {
                let cl = find_close_sq(s, i + 1)->Some_0;
                seq!['"'] + sq_conv(s.subrange(i + 1, cl)) + seq!['"'] + single_quotes_from(
                    s,
                    cl + 1,
                    ScanMode::Code,
                )
            } else {
                seq![c] + single_quotes_from(s, i + 1, ScanMode::Code)
            },
        }
    }
}

#[via_fn]
proof fn Self_single_quotes_decreases(s: Seq<char>, i: int, m: ScanMode) {
    if 0 <= i < s.len() {
        if find_close_sq(s, i + 1) is Some {
            lemma_find_close_sq_ge(s, i + 1);
        }
    }
}

/// What the single-quote pass computes on a whole text.
pub open spec fn single_quotes_spec(s: Seq<char>) -> Seq<char> {
    single_quotes_from(s, 0, ScanMode::Code)
}

/// Whether the character before `i` suggests a string boundary.
#[verifier::loop_isolation(false)]
fn sq_boundary_before_exec(s: &Vec<char>, i: usize) -> (r: bool)
    requires
        i < s@.len(),
    ensures
        r == sq_boundary_before(s@, i as int),
{
    if i == 0 {
        return true;
    }
    let mut j: usize = i - 1;
    while j > 0 && crate::text::ws(s[j])
        invariant
            0 <= j < s@.len(),
            prev_non_ws(s@, i - 1) == prev_non_ws(s@, j as int),
        decreases j,
    {
        j = j - 1;
    }
    proof {
        assert(prev_non_ws(s@, j as int) == j as int);
    }
    let c = s[j];
    (j == 0 && crate::text::ws(c)) || c == '{' || c == '[' || c == ':' || c == ','
}

/// Whether the character after `i` suggests a string boundary.
#[verifier::loop_isolation(false)]
fn sq_boundary_after_exec(s: &Vec<char>, i: usize) -> (r: bool)
    requires
        i < s@.len(),
    ensures
        r == sq_boundary_after(s@, i as int),
{
    let n = s.len();
    if i + 1 >= n {
        return true;
    }
    let k = next_non_ws_exec(s, i + 1);
    if k >= n {
        return true;
    }
    let c = s[k];
    c == '}' || c == ']' || c == ':' || c == ','
}

/// The closing single quote at or after `j`, skipping backslash pairs.
#[verifier::loop_isolation(false)]
fn find_close_sq_exec(s: &Vec<char>, j: usize) -> (r: Option<usize>)
    requires
        j <= s@.len(),
    ensures
        match r {
            Some(c) => find_close_sq(s@, j as int) == Some(c as int) && j <= c < s@.len(),
            None => find_close_sq(s@, j as int) is None,
        },
{
    let n = s.len();
    let mut k: usize = j;
    while k < n
        invariant
            j <= k,
            find_close_sq(s@, j as int) == find_close_sq(s@, k as int),
        decreases n - k,
    {
        if s[k] == '\\' {
            if n - k >= 2 {
                k = k + 2;
            } else {
                proof {
                    assert(find_close_sq(s@, k + 2) is None);
                }
                return None;
            }
        } else if s[k] == '\'' {
            proof {
                lemma_find_close_sq_ge(s@, j as int);
            }
            return Some(k);
        } else {
            k = k + 1;
        }
    }
    None
}

/// Replace single-quoted strings with double-quoted strings; conservative
/// about boundaries to avoid corrupting apostrophes inside valid strings.
#[verifier::loop_isolation(false)]
pub fn replace_single_quotes(s: &Vec<char>) -> (r: Vec<char>)
    ensures
        r@ == single_quotes_spec(s@),
{
    let n = s.len();
    let mut out: Vec<char> = Vec::new();
    let mut i: usize = 0;
    let mut m = ScanMode::Code;
    while i < n
        invariant
            n == s@.len(),
            0 <= i <= n,
            m is Code || m is Str || m is StrEsc,
            single_quotes_spec(s@) == out@ + single_quotes_from(s@, i as int, m),
        decreases n - i,
    {
        let c = s[i];
        match m {
            ScanMode::StrEsc => {
                out.push(c);
                m = ScanMode::Str;
                i = i + 1;
            }
            ScanMode::Str => {
                out.push(c);
                if c == '\\' {
                    m = ScanMode::StrEsc;
                } else if c == '"' {
                    m = ScanMode::Code;
                }
                i = i + 1;
            }
            _ => {
                m = ScanMode::Code;
                if c == '"' {
                    out.push(c);
                    m = ScanMode::Str;
                    i = i + 1;
                } else if c == '\'' && sq_boundary_before_exec(s, i) {
                    let mut converted = false;
                    match find_close_sq_exec(s, i + 1) {
                        Some(cl) => {
                            if sq_boundary_after_exec(s, cl) {
                                converted = true;
                                let ghost base = out@;
                                out.push('"');
                                let mut j: usize = i + 1;
                                while j < cl
                                    invariant
                                        i + 1 <= j <= cl,
                                        out@ == base + seq!['"'] + sq_conv(
                                            s@.subrange(i + 1, j as int),
                                        ),
                                    decreases cl - j,
                                {
                                    let ch = s[j];
                                    if ch == '"' {
                                        out.push('\\');
                                    }
                                    out.push(ch);
                                    proof {
                                        assert(s@.subrange(i + 1, j + 1).drop_last()
                                            =~= s@.subrange(i + 1, j as int));
                                        assert(s@.subrange(i + 1, j + 1).last() == ch);
                                        assert(out@ =~= base + seq!['"'] + sq_conv(
                                            s@.subrange(i + 1, j + 1),
                                        ));
                                    }
                                    j = j + 1;
                                }
                                out.push('"');
                                i = cl + 1;
                            }
                        }
                        None => {}
                    }
                    if !converted {
                        out.push(c);
                        i = i + 1;
                    }
                } else {
                    out.push(c);
                    i = i + 1;
                }
            }
        }
        proof {
            assert(single_quotes_spec(s@) =~= out@ + single_quotes_from(s@, i as int, m));
        }
    }
    proof {
        assert(single_quotes_spec(s@) =~= out@);
    }
    out
}

/// The end of the identifier run beginning at `j`.
pub open spec fn ident_end(s: Seq<char>, j: int) -> int
    decreases s.len() - j
        when 0 <= j
{
    if j >= s.len() {
        s.len() as int
    } else if is_alnum(s[j]) || s[j] == '_' {
        ident_end(s, j + 1)
    } else {
        j
    }
}

/// The identifier run ends at or after where it begins, within the text.
pub proof fn lemma_ident_end_ge(s: Seq<char>, j: int)
    requires
        0 <= j <= s.len(),
    ensures
        j <= ident_end(s, j) <= s.len(),
    decreases s.len() - j,
{
    if j >= s.len() {
    } else if is_alnum(s[j]) || s[j] == '_' {
        lemma_ident_end_ge(s, j + 1);
    }
}

/// The next-non-whitespace position lies at or after where the search
/// begins, within the text.
pub proof fn lemma_next_non_ws_ge(s: Seq<char>, j: int)
    requires
        0 <= j <= s.len(),
    ensures
        j <= next_non_ws(s, j) <= s.len(),
    decreases s.len() - j,
{
    if j < s.len() && is_ws(s[j]) {
        lemma_next_non_ws_ge(s, j + 1);
    }
}

/// The unquoted-key pass from position `i`: after `{` or `,`, an
/// identifier standing before `:` is wrapped in double quotes.
pub open spec fn quote_keys_from(s: Seq<char>, i: int, m: ScanMode) -> Seq<char>
    decreases s.len() - i
        when 0 <= i
        via Self_quote_keys_decreases
{
    if i >= s.len() {
        Seq::empty()
    } else {
        let c = s[i];
        match m {
            ScanMode::StrEsc => seq![c] + quote_keys_from(s, i + 1, ScanMode::Str),
            ScanMode::Str => if c == '\\' {
                seq![c] + quote_keys_from(s, i + 1, ScanMode::StrEsc)
            } else if c == '"' {
                seq![c] + quote_keys_from(s, i + 1, ScanMode::Code)
            } else {
                seq![c] + quote_keys_from(s, i + 1, ScanMode::Str)
            },
            _ => if c == '"' {
                seq![c] + quote_keys_from(s, i + 1, ScanMode::Str)
            } else if c == '{' || c == ',' {
                let k = next_non_ws(s, i + 1);
                let lead = seq![c] + s.subrange(i + 1, k);
                if k < s.len() && (is_alpha(s[k]) || s[k] == '_') {
                    let e = ident_end(s, k);
                    let q = next_non_ws(s, e);
                    if q < s.len() && s[q] == ':' {
                        lead + seq!['"'] + s.subrange(k, e) + seq!['"'] + quote_keys_from(
                            s,
                            q,
                            ScanMode::Code,
                        )
                    } else {
                        lead + s.subrange(k, q) + quote_keys_from(s, q, ScanMode::Code)
                    }
                } else {
                    lead + quote_keys_from(s, k, ScanMode::Code)
                }
            } else {
                seq![c] + quote_keys_from(s, i + 1, ScanMode::Code)
            },
        }
    }
}

#[via_fn]
proof fn Self_quote_keys_decreases(s: Seq<char>, i: int, m: ScanMode) {
    if 0 <= i < s.len() {
        lemma_next_non_ws_ge(s, i + 1);
        let k = next_non_ws(s, i + 1);
        if k < s.len() {
            lemma_ident_end_ge(s, k);
            let e = ident_end(s, k);
            lemma_next_non_ws_ge(s, e);
        }
    }
}

/// What the unquoted-key pass computes on a whole text.
pub open spec fn quote_keys_spec(s: Seq<char>) -> Seq<char> {
    quote_keys_from(s, 0, ScanMode::Code)
}

/// The end of the identifier run beginning at `j`.
#[verifier::loop_isolation(false)]
fn ident_end_exec(s: &Vec<char>, j: usize) -> (r: usize)
    requires
        j <= s@.len(),
    ensures
        r == ident_end(s@, j as int),
        j <= r <= s@.len(),
{
    let n = s.len();
    let mut k: usize = j;
    while k < n
        invariant
            j <= k <= n,
            ident_end(s@, j as int) == ident_end(s@, k as int),
        decreases n - k,
    {
        let c = s[k];
        if !(crate::text::alnum(c) || c == '_') {
            return k;
        }
        k = k + 1;
    }
    k
}

/// Quote unquoted object keys: `{key: "value"}` becomes
/// `{"key": "value"}`.
#[verifier::loop_isolation(false)]
pub fn quote_unquoted_keys(s: &Vec<char>) -> (r: Vec<char>)
    ensures
        r@ == quote_keys_spec(s@),
{
    let n = s.len();
    let mut out: Vec<char> = Vec::new();
    let mut i: usize = 0;
    let mut m = ScanMode::Code;
    while i < n
        invariant
            n == s@.len(),
            0 <= i <= n,
            m is Code || m is Str || m is StrEsc,
            quote_keys_spec(s@) == out@ + quote_keys_from(s@, i as int, m),
        decreases n - i,
    {
        let c = s[i];
        match m {
            ScanMode::StrEsc => {
                out.push(c);
                m = ScanMode::Str;
                i = i + 1;
            }
            ScanMode::Str => {
                out.push(c);
                if c == '\\' {
                    m = ScanMode::StrEsc;
                } else if c == '"' {
                    m = ScanMode::Code;
                }
                i = i + 1;
            }
            _ => {
                m = ScanMode::Code;
                if c == '"' {
                    out.push(c);
                    m = ScanMode::Str;
                    i = i + 1;
                } else if c == '{' || c == ',' {
                    out.push(c);
                    let k = next_non_ws_exec(s, i + 1);
                    let lead_ws = crate::text::slice_range(s, i + 1, k);
                    crate::text::append_all(&mut out, &lead_ws);
                    if k < n && (crate::text::alpha(s[k]) || s[k] == '_') {
                        let e = ident_end_exec(s, k);
                        let q = next_non_ws_exec(s, e);
                        if q < n && s[q] == ':' {
                            out.push('"');
                            let key = crate::text::slice_range(s, k, e);
                            crate::text::append_all(&mut out, &key);
                            out.push('"');
                            i = q;
                        } else {
                            let run = crate::text::slice_range(s, k, q);
                            crate::text::append_all(&mut out, &run);
                            i = q;
                        }
                    } else {
                        i = k;
                    }
                } else {
                    out.push(c);
                    i = i + 1;
                }
            }
        }
        proof {
            assert(quote_keys_spec(s@) =~= out@ + quote_keys_from(s@, i as int, m));
        }
    }
    proof {
        assert(quote_keys_spec(s@) =~= out@);
    }
    out
}

/// The open-brace and open-bracket surpluses after scanning all of `s`
/// from position `i` with counts `(nb, nk)`.
pub open spec fn bracket_counts(s: Seq<char>, i: int, m: ScanMode, nb: int, nk: int) -> (
    int,
    int,
)
    decreases s.len() - i
        when 0 <= i
{
    if i >= s.len() {
        (nb, nk)
    } else {
        let c = s[i];
        match m {
            ScanMode::StrEsc => bracket_counts(s, i + 1, ScanMode::Str, nb, nk),
            ScanMode::Str => if c == '\\' {
                bracket_counts(s, i + 1, ScanMode::StrEsc, nb, nk)
            } else if c == '"' {
                bracket_counts(s, i + 1, ScanMode::Code, nb, nk)
            } else {
                bracket_counts(s, i + 1, ScanMode::Str, nb, nk)
            },
            _ => if c == '"' {
                bracket_counts(s, i + 1, ScanMode::Str, nb, nk)
            } else if c == '{' {
                bracket_counts(s, i + 1, ScanMode::Code, nb + 1, nk)
            } else if c == '}' {
                bracket_counts(s, i + 1, ScanMode::Code, nb - 1, nk)
            } else if c == '[' {
                bracket_counts(s, i + 1, ScanMode::Code, nb, nk + 1)
            } else if c == ']' {
                bracket_counts(s, i + 1, ScanMode::Code, nb, nk - 1)
            } else {
                bracket_counts(s, i + 1, ScanMode::Code, nb, nk)
            },
        }
    }
}

/// `n` copies of one character.
pub open spec fn char_repeat(c: char, n: int) -> Seq<char> {
    Seq::new(if n >= 0 {
        n as nat
    } else {
        0
    }, |k: int| c)
}

/// What the closing pass computes: the text, then a closer for each
/// unmatched `[`, then one for each unmatched `{`.
pub open spec fn close_brackets_spec(s: Seq<char>) -> Seq<char> {
    let counts = bracket_counts(s, 0, ScanMode::Code, 0, 0);
    s + char_repeat(']', counts.1) + char_repeat('}', counts.0)
}

/// Append a closing bracket or brace for each one left open.
#[verifier::loop_isolation(false)]
pub fn close_missing_brackets(s: &Vec<char>) -> (r: Vec<char>)
    ensures
        r@ == close_brackets_spec(s@),
{
    let n = s.len();
    let mut i: usize = 0;
    let mut m = ScanMode::Code;
    let mut nb: i128 = 0;
    let mut nk: i128 = 0;
    while i < n
        invariant
            n == s@.len(),
            0 <= i <= n,
            m is Code || m is Str || m is StrEsc,
            -(i as int) <= nb <= i as int,
            -(i as int) <= nk <= i as int,
            bracket_counts(s@, 0, ScanMode::Code, 0, 0) == bracket_counts(
                s@,
                i as int,
                m,
                nb as int,
                nk as int,
            ),
        decreases n - i,
    {
        let c = s[i];
        match m {
            ScanMode::StrEsc => {
                m = ScanMode::Str;
            }
            ScanMode::Str => {
                if c == '\\' {
                    m = ScanMode::StrEsc;
                } else if c == '"' {
                    m = ScanMode::Code;
                }
            }
            _ => {
                m = ScanMode::Code;
                if c == '"' {
                    m = ScanMode::Str;
                } else if c == '{' {
                    nb = nb + 1;
                } else if c == '}' {
                    nb = nb - 1;
                } else if c == '[' {
                    nk = nk + 1;
                } else if c == ']' {
                    nk = nk - 1;
                }
            }
        }
        i = i + 1;
    }
    let mut out = crate::text::slice_range(s, 0, n);
    proof {
        assert(s@.subrange(0, n as int) =~= s@);
    }
    let ghost base = out@;
    let mut a: i128 = 0;
    while a < nk
        invariant
            0 <= a,
            nk > 0 ==> a <= nk,
            nk <= 0 ==> a == 0,
            out@ == base + char_repeat(']', a as int),
        decreases nk - a,
    {
        out.push(']');
        proof {
            assert(out@ =~= base + char_repeat(']', a + 1));
        }
        a = a + 1;
    }
    proof {
        assert(out@ =~= s@ + char_repeat(']', nk as int));
    }
    let ghost base2 = out@;
    let mut b: i128 = 0;
    while b < nb
        invariant
            0 <= b,
            nb > 0 ==> b <= nb,
            nb <= 0 ==> b == 0,
            out@ == base2 + char_repeat('}', b as int),
        decreases nb - b,
    {
        out.push('}');
        proof {
            assert(out@ =~= base2 + char_repeat('}', b + 1));
        }
        b = b + 1;
    }
    proof {
        assert(out@ =~= close_brackets_spec(s@));
    }
    out
}

/// The newline pass from position `i`: raw line breaks inside strings
/// become their two-character escapes.
pub open spec fn escape_newlines_from(s: Seq<char>, i: int, m: ScanMode) -> Seq<char>
    decreases s.len() - i
        when 0 <= i
{
    if i >= s.len() {
        Seq::empty()
    } else {
        let c = s[i];
        match m {
            ScanMode::StrEsc => seq![c] + escape_newlines_from(s, i + 1, ScanMode::Str),
            ScanMode::Str => if c == '\\' {
                seq![c] + escape_newlines_from(s, i + 1, ScanMode::StrEsc)
            } else if c == '"' {
                seq![c] + escape_newlines_from(s, i + 1, ScanMode::Code)
            } else if c == '\n' {
                seq!['\\', 'n'] + escape_newlines_from(s, i + 1, ScanMode::Str)
            } else if c == '\r' {
                seq!['\\', 'r'] + escape_newlines_from(s, i + 1, ScanMode::Str)
            } else {
                seq![c] + escape_newlines_from(s, i + 1, ScanMode::Str)
            },
            _ => if c == '"' {
                seq![c] + escape_newlines_from(s, i + 1, ScanMode::Str)
            } else {
                seq![c] + escape_newlines_from(s, i + 1, ScanMode::Code)
            },
        }
    }
}

/// What the newline pass computes on a whole text.
pub open spec fn escape_newlines_spec(s: Seq<char>) -> Seq<char> {
    escape_newlines_from(s, 0, ScanMode::Code)
}

/// Escape raw newlines and carriage returns inside string values.
#[verifier::loop_isolation(false)]
pub fn escape_raw_newlines(s: &Vec<char>) -> (r: Vec<char>)
    ensures
        r@ == escape_newlines_spec(s@),
{
    let n = s.len();
    let mut out: Vec<char> = Vec::new();
    let mut i: usize = 0;
    let mut m = ScanMode::Code;
    while i < n
        invariant
            n == s@.len(),
            0 <= i <= n,
            m is Code || m is Str || m is StrEsc,
            escape_newlines_spec(s@) == out@ + escape_newlines_from(s@, i as int, m),
        decreases n - i,
    {
        let c = s[i];
        match m {
            ScanMode::StrEsc => {
                out.push(c);
                m = ScanMode::Str;
            }
            ScanMode::Str => {
                if c == '\\' {
                    out.push(c);
                    m = ScanMode::StrEsc;
                } else if c == '"' {
                    out.push(c);
                    m = ScanMode::Code;
                } else if c == '\n' {
                    out.push('\\');
                    out.push('n');
                } else if c == '\r' {
                    out.push('\\');
                    out.push('r');
                } else {
                    out.push(c);
                }
            }
            _ => {
                m = ScanMode::Code;
                out.push(c);
                if c == '"' {
                    m = ScanMode::Str;
                }
            }
        }
        i = i + 1;
        proof {
            assert(escape_newlines_spec(s@) =~= out@ + escape_newlines_from(s@, i as int, m));
        }
    }
    proof {
        assert(escape_newlines_spec(s@) =~= out@);
    }
    out
}

/// All seven repair passes, in order.
pub open spec fn repair_chain_spec(s: Seq<char>) -> Seq<char> {
    escape_newlines_spec(
        close_brackets_spec(
            quote_keys_spec(
                single_quotes_spec(drop_commas_spec(python_lits_spec(strip_comments_spec(s)))),
            ),
        ),
    )
}

/// Attempt to repair common LLM JSON mistakes without calling the model.
///
/// Returns the repaired string only when the input was not already valid
/// JSON and the repaired text is; `None` otherwise — an already-valid
/// input is never touched, and an unrepairable one is reported rather
/// than silently mutated.
pub fn try_repair_json(broken: &str) -> (r: Option<String>)
    ensures
        json_parse_ok(broken@) ==> r is None,
        match r {
            Some(t) => {
                &&& !json_parse_ok(broken@)
                &&& t@ == repair_chain_spec(broken@)
                &&& json_parse_ok(t@)
            },
            None => json_parse_ok(broken@) || !json_parse_ok(repair_chain_spec(broken@)),
        },
{
    if crate::json::text_parses(broken) {
        return None;
    }
    let cs = chars_of(broken);
    let p1 = strip_comments(&cs);
    let p2 = replace_python_literals(&p1);
    let p3 = remove_trailing_commas(&p2);
    let p4 = replace_single_quotes(&p3);
    let p5 = quote_unquoted_keys(&p4);
    let p6 = close_missing_brackets(&p5);
    let p7 = escape_raw_newlines(&p6);
    let repaired = string_of(&p7);
    if crate::json::text_parses(repaired.as_str()) {
        Some(repaired)
    } else {
        None
    }
}

} // verus!
