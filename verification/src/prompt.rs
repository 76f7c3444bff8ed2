//! Prompt rendering: substitute the input and named variables into a
//! template, with doubled braces escaping literal ones.

use vstd::prelude::*;
use crate::text::{chars_of, find_from, match_at, slice_range, string_of};
use crate::types::PipelineContext;

verus! {

/// `s` with every occurrence of `pat` replaced by `rep`, scanning left
/// to right without overlap.
pub open spec fn replace_spec(s: Seq<char>, pat: Seq<char>, rep: Seq<char>) -> Seq<char>
    decreases s.len()
        when pat.len() > 0
        via Self_replace_decreases
{
    match find_from(s, pat, 0) {
        Some(i) => s.subrange(0, i) + rep + replace_spec(
            s.subrange(i + pat.len(), s.len() as int),
            pat,
            rep,
        ),
        None => s,
    }
}

#[via_fn]
proof fn Self_replace_decreases(s: Seq<char>, pat: Seq<char>, rep: Seq<char>) {
    crate::text::lemma_find_from(s, pat, 0);
}

/// `s` with every occurrence of `pat` replaced by `rep`.
#[verifier::loop_isolation(false)]
pub fn replace_all(s: &Vec<char>, pat: &Vec<char>, rep: &Vec<char>) -> (r: Vec<char>)
    requires
        pat@.len() > 0,
    ensures
        r@ == replace_spec(s@, pat@, rep@),
{
    let n = s.len();
    let mut out: Vec<char> = Vec::new();
    let mut i: usize = 0;
    let ghost full = s@;
    let mut done = false;
    proof {
        assert(full.subrange(0, n as int) =~= full);
    }
    while !done
        invariant
            0 <= i <= n,
            n == s@.len(),
            full == s@,
            pat@.len() > 0,
            !done ==> replace_spec(full, pat@, rep@) == out@ + replace_spec(
                full.subrange(i as int, n as int),
                pat@,
                rep@,
            ),
            done ==> replace_spec(full, pat@, rep@) == out@,
        decreases n + 1 - i, if done {
            0int
        } else {
            1int
        },
    {
        let ghost rest = full.subrange(i as int, n as int);
        match crate::text::find_sub_from(s, pat, i) {
            Some(p) if p + pat.len() <= n => {
                proof {
                    lemma_find_shift(full, pat@, i as int, p as int);
                    assert(rest.subrange(0, p - i) =~= full.subrange(i as int, p as int));
                    assert(rest.subrange(
                        p - i + pat@.len(),
                        rest.len() as int,
                    ) =~= full.subrange(p + pat@.len(), n as int));
                }
                let head = slice_range(s, i, p);
                crate::text::append_all(&mut out, &head);
                crate::text::append_all(&mut out, rep);
                proof {
                    assert(replace_spec(full, pat@, rep@) =~= out@ + replace_spec(
                        full.subrange(p + pat@.len(), n as int),
                        pat@,
                        rep@,
                    ));
                }
                i = p + pat.len();
            }
            _ => {
                proof {
                    lemma_find_shift_none(full, pat@, i as int);
                }
                let tail = slice_range(s, i, n);
                crate::text::append_all(&mut out, &tail);
                done = true;
            }
        }
    }
    out
}

/// A first match at `p` searching from `i` is a first match at `p - i`
/// in the tail that starts at `i`.
proof fn lemma_find_shift(s: Seq<char>, pat: Seq<char>, i: int, p: int)
    requires
        0 <= i <= p,
        p + pat.len() <= s.len(),
        match_at(s, pat, p),
        forall|j: int| i <= j < p ==> !match_at(s, pat, j),
    ensures
        find_from(s.subrange(i, s.len() as int), pat, 0) == Some(p - i),
{
    let rest = s.subrange(i, s.len() as int);
    assert(rest.subrange(p - i, p - i + pat.len()) =~= s.subrange(p, p + pat.len()));
    assert(match_at(rest, pat, p - i));
    assert forall|k: int| 0 <= k < p - i implies !match_at(rest, pat, k) by {
        if match_at(rest, pat, k) {
            assert(rest.subrange(k, k + pat.len()) =~= s.subrange(i + k, i + k + pat.len()));
            assert(match_at(s, pat, i + k));
        }
    }
    crate::text::lemma_find_from_unique(rest, pat, 0, Some(p - i));
}

/// No match from `i` on means no match in the tail that starts at `i`.
proof fn lemma_find_shift_none(s: Seq<char>, pat: Seq<char>, i: int)
    requires
        0 <= i <= s.len(),
        forall|j: int| i <= j ==> !match_at(s, pat, j),
    ensures
        find_from(s.subrange(i, s.len() as int), pat, 0) is None,
{
    let rest = s.subrange(i, s.len() as int);
    assert forall|k: int| 0 <= k implies !match_at(rest, pat, k) by {
        if match_at(rest, pat, k) {
            assert(rest.subrange(k, k + pat.len()) =~= s.subrange(i + k, i + k + pat.len()));
            assert(match_at(s, pat, i + k));
        }
    }
    crate::text::lemma_find_from_unique(rest, pat, 0, None);
}

/// A placeholder `{name}` for a variable name.
pub open spec fn placeholder(name: Seq<char>) -> Seq<char> {
    seq!['{'] + name + seq!['}']
}

/// Variable substitutions applied in order: each `{name}` replaced by
/// its value.
pub open spec fn subst_vars(s: Seq<char>, vars: Seq<(Seq<char>, Seq<char>)>, k: int) -> Seq<
    char,
>
    decreases vars.len() - k
        when 0 <= k
{
    if k >= vars.len() {
        s
    } else {
        subst_vars(replace_spec(s, placeholder(vars[k].0), vars[k].1), vars, k + 1)
    }
}

/// What [`render`] computes: escaped braces protected, `{input}` and
/// each context variable substituted, escapes restored.
pub open spec fn render_spec(
    template: Seq<char>,
    input: Seq<char>,
    vars: Seq<(Seq<char>, Seq<char>)>,
) -> Seq<char> {
    let p1 = replace_spec(template, "{{"@, sentinel_open());
    let p2 = replace_spec(p1, "}}"@, sentinel_close());
    let p3 = replace_spec(p2, "{input}"@, input);
    let p4 = subst_vars(p3, vars, 0);
    let p5 = replace_spec(p4, sentinel_open(), seq!['{']);
    replace_spec(p5, sentinel_close(), seq!['}'])
}

/// The sentinel protecting an escaped opening brace.
pub open spec fn sentinel_open() -> Seq<char> {
    seq!['\u{0}', 'L', 'B', 'R', 'A', 'C', 'E', '\u{0}']
}

/// The sentinel protecting an escaped closing brace.
pub open spec fn sentinel_close() -> Seq<char> {
    seq!['\u{0}', 'R', 'B', 'R', 'A', 'C', 'E', '\u{0}']
}

/// The two sentinel strings at runtime.
fn sentinels() -> (r: (Vec<char>, Vec<char>))
    ensures
        r.0@ == sentinel_open(),
        r.1@ == sentinel_close(),
{
    let mut a: Vec<char> = Vec::new();
    a.push('\u{0}');
    a.push('L');
    a.push('B');
    a.push('R');
    a.push('A');
    a.push('C');
    a.push('E');
    a.push('\u{0}');
    let mut b: Vec<char> = Vec::new();
    b.push('\u{0}');
    b.push('R');
    b.push('B');
    b.push('R');
    b.push('A');
    b.push('C');
    b.push('E');
    b.push('\u{0}');
    proof {
        assert(a@ =~= sentinel_open());
        assert(b@ =~= sentinel_close());
    }
    (a, b)
}

/// Build a prompt string with variable substitution: `{input}` takes the
/// input, `{key}` takes each context value, `{{` and `}}` yield literal
/// braces.
#[verifier::loop_isolation(false)]
pub fn render(template: &str, input: &str, context: &PipelineContext) -> (r: String)
    ensures
        r@ == render_spec(
            template@,
            input@,
            context.data@.map_values(|p: (String, String)| (p.0@, p.1@)),
        ),
{
    proof {
        reveal_strlit("{{");
        reveal_strlit("}}");
        reveal_strlit("{input}");
    }
    let (so, sc) = sentinels();
    let tv = chars_of(template);
    let iv = chars_of(input);
    let obrace = chars_of("{{");
    let cbrace = chars_of("}}");
    let iph = chars_of("{input}");
    let p1 = replace_all(&tv, &obrace, &so);
    let p2 = replace_all(&p1, &cbrace, &sc);
    let mut cur = replace_all(&p2, &iph, &iv);
    let ghost vars = context.data@.map_values(|p: (String, String)| (p.0@, p.1@));
    let n = context.data.len();
    let mut k: usize = 0;
    while k < n
        invariant
            0 <= k <= n,
            n == context.data@.len(),
            vars == context.data@.map_values(|p: (String, String)| (p.0@, p.1@)),
            subst_vars(cur@, vars, k as int) == subst_vars(
                replace_spec(
                    replace_spec(
                        replace_spec(template@, "{{"@, sentinel_open()),
                        "}}"@,
                        sentinel_close(),
                    ),
                    "{input}"@,
                    input@,
                ),
                vars,
                0,
            ),
        decreases n - k,
    {
        let name = chars_of(context.data[k].0.as_str());
        let mut ph: Vec<char> = Vec::new();
        ph.push('{');
        crate::text::append_all(&mut ph, &name);
        ph.push('}');
        proof {
            assert(ph@ =~= placeholder(vars[k as int].0));
        }
        let val = chars_of(context.data[k].1.as_str());
        cur = replace_all(&cur, &ph, &val);
        k = k + 1;
    }
    let p5 = replace_all(&cur, &so, &{
        let mut v: Vec<char> = Vec::new();
        v.push('{');
        v
    });
    let p6 = replace_all(&p5, &sc, &{
        let mut v: Vec<char> = Vec::new();
        v.push('}');
        v
    });
    proof {
        assert(seq!['{'] =~= p5@.subrange(0, 0) + seq!['{']);
    }
    string_of(&p6)
}

/// What [`render_vars`] computes: escaped braces protected, each context
/// variable substituted, escapes restored — the rendering used for
/// templates that carry no `{input}` placeholder.
pub open spec fn render_vars_spec(
    template: Seq<char>,
    vars: Seq<(Seq<char>, Seq<char>)>,
) -> Seq<char> {
    let p1 = replace_spec(template, "{{"@, sentinel_open());
    let p2 = replace_spec(p1, "}}"@, sentinel_close());
    let p3 = subst_vars(p2, vars, 0);
    let p4 = replace_spec(p3, sentinel_open(), seq!['{']);
    replace_spec(p4, sentinel_close(), seq!['}'])
}

/// Render a template with context variables only: `{key}` takes each
/// context value, `{{` and `}}` yield literal braces.
#[verifier::loop_isolation(false)]
pub fn render_vars(template: &str, context: &PipelineContext) -> (r: String)
    ensures
        r@ == render_vars_spec(
            template@,
            context.data@.map_values(|p: (String, String)| (p.0@, p.1@)),
        ),
{
    proof {
        reveal_strlit("{{");
        reveal_strlit("}}");
    }
    let (so, sc) = sentinels();
    let tv = chars_of(template);
    let obrace = chars_of("{{");
    let cbrace = chars_of("}}");
    let p1 = replace_all(&tv, &obrace, &so);
    let mut cur = replace_all(&p1, &cbrace, &sc);
    let ghost vars = context.data@.map_values(|p: (String, String)| (p.0@, p.1@));
    let n = context.data.len();
    let mut k: usize = 0;
    while k < n
        invariant
            0 <= k <= n,
            n == context.data@.len(),
            vars == context.data@.map_values(|p: (String, String)| (p.0@, p.1@)),
            subst_vars(cur@, vars, k as int) == subst_vars(
                replace_spec(
                    replace_spec(template@, "{{"@, sentinel_open()),
                    "}}"@,
                    sentinel_close(),
                ),
                vars,
                0,
            ),
        decreases n - k,
    {
        let name = chars_of(context.data[k].0.as_str());
        let mut ph: Vec<char> = Vec::new();
        ph.push('{');
        crate::text::append_all(&mut ph, &name);
        ph.push('}');
        proof {
            assert(ph@ =~= placeholder(vars[k as int].0));
        }
        let val = chars_of(context.data[k].1.as_str());
        cur = replace_all(&cur, &ph, &val);
        k = k + 1;
    }
    let p4 = replace_all(&cur, &so, &{
        let mut v: Vec<char> = Vec::new();
        v.push('{');
        v
    });
    let p5 = replace_all(&p4, &sc, &{
        let mut v: Vec<char> = Vec::new();
        v.push('}');
        v
    });
    string_of(&p5)
}

/// A number rendered in decimal.
pub open spec fn dec_rep(n: int) -> Seq<char>
    decreases n
        when n >= 0
{
    if n < 10 {
        seq![crate::json::hex_digit(n as u32)]
    } else {
        dec_rep(n / 10) + seq![crate::json::hex_digit((n % 10) as u32)]
    }
}

/// A number rendered in decimal at runtime.
pub fn u32_dec(n: u32) -> (r: Vec<char>)
    ensures
        r@ == dec_rep(n as int),
    decreases n,
{
    if n < 10 {
        let mut v: Vec<char> = Vec::new();
        v.push(crate::json::hex_digit_pub(n));
        proof {
            assert(v@ =~= dec_rep(n as int));
        }
        v
    } else {
        let mut v = u32_dec(n / 10);
        v.push(crate::json::hex_digit_pub(n % 10));
        proof {
            assert(v@ =~= dec_rep(n as int));
        }
        v
    }
}

/// The lines a numbered list is made of, one-indexed.
pub open spec fn numbered_spec(items: Seq<Seq<char>>, k: int) -> Seq<char>
    decreases items.len() - k
        when 0 <= k
{
    if k >= items.len() {
        Seq::empty()
    } else {
        let line = dec_rep(k + 1) + ". "@ + items[k];
        let rest = numbered_spec(items, k + 1);
        if k + 1 < items.len() {
            line + seq!['\n'] + rest
        } else {
            line
        }
    }
}

/// Create a numbered list from items, one-indexed, one per line.
#[verifier::loop_isolation(false)]
pub fn numbered_list(items: &Vec<String>) -> (r: String)
    requires
        items@.len() < 0x100000000,
    ensures
        r@ == numbered_spec(items@.map_values(|x: String| x@), 0),
{
    proof {
        reveal_strlit(". ");
    }
    let ghost iv = items@.map_values(|x: String| x@);
    let n = items.len();
    let mut out: Vec<char> = Vec::new();
    let mut k: usize = 0;
    while k < n
        invariant
            0 <= k <= n,
            n == items@.len(),
            n < 0x100000000,
            iv == items@.map_values(|x: String| x@),
            numbered_spec(iv, 0) == out@ + numbered_spec(iv, k as int),
        decreases n - k,
    {
        let num = u32_dec((k as u32) + 1);
        crate::text::append_all(&mut out, &num);
        let sep = chars_of(". ");
        crate::text::append_all(&mut out, &sep);
        let item = chars_of(items[k].as_str());
        crate::text::append_all(&mut out, &item);
        if k + 1 < n {
            out.push('\n');
        }
        proof {
            assert(numbered_spec(iv, 0) =~= out@ + numbered_spec(iv, k + 1));
        }
        k = k + 1;
    }
    proof {
        assert(numbered_spec(iv, 0) =~= out@);
    }
    string_of(&out)
}

/// Wrap text in a labeled section for structured prompts.
pub fn section(label: &str, content: &str) -> (r: String)
    ensures
        r@ == "## "@ + label@ + seq!['\n'] + content@,
{
    proof {
        reveal_strlit("## ");
    }
    let mut out = chars_of("## ");
    let lv = chars_of(label);
    crate::text::append_all(&mut out, &lv);
    out.push('\n');
    let cv = chars_of(content);
    crate::text::append_all(&mut out, &cv);
    proof {
        assert(out@ =~= "## "@ + label@ + seq!['\n'] + content@);
    }
    string_of(&out)
}

} // verus!
