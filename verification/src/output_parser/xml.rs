//! XML-style tag extraction: lightweight matching of `<tag>...</tag>`
//! delimiters, not a full XML parser.

use vstd::prelude::*;
use crate::text::{chars_of, find_from, slice_range, string_of, trim_chars, trim_spec};
use crate::output_parser::extract::{preprocess, preprocess_spec};
use crate::output_parser::error::{truncate, ParseError};

verus! {

/// The opening form of a tag name.
pub open spec fn open_tag(tag: Seq<char>) -> Seq<char> {
    seq!['<'] + tag + seq!['>']
}

/// The closing form of a tag name.
pub open spec fn close_tag(tag: Seq<char>) -> Seq<char> {
    seq!['<', '/'] + tag + seq!['>']
}

/// The trimmed content of the first `<tag>` in the text: up to the next
/// `</tag>`, or to the end when the closing tag is missing; `None` when
/// the opening tag does not occur.
pub open spec fn xml_tag_spec(cleaned: Seq<char>, tag: Seq<char>) -> Option<Seq<char>> {
    match find_from(cleaned, open_tag(tag), 0) {
        Some(start) => {
            let cs = start + open_tag(tag).len();
            match find_from(cleaned.subrange(cs, cleaned.len() as int), close_tag(tag), 0) {
                Some(e) => Some(trim_spec(cleaned.subrange(cs, cs + e))),
                None => Some(trim_spec(cleaned.subrange(cs, cleaned.len() as int))),
            }
        },
        None => None,
    }
}

/// `<` + tag + `>` as a character vector; with `closing`, `</` + tag + `>`.
#[verifier::loop_isolation(false)]
fn build_tag(tag: &Vec<char>, closing: bool) -> (r: Vec<char>)
    ensures
        closing ==> r@ == close_tag(tag@),
        !closing ==> r@ == open_tag(tag@),
{
    let mut out: Vec<char> = Vec::new();
    out.push('<');
    if closing {
        out.push('/');
    }
    crate::text::append_all(&mut out, tag);
    out.push('>');
    proof {
        if closing {
            assert(out@ =~= close_tag(tag@));
        } else {
            assert(out@ =~= open_tag(tag@));
        }
    }
    out
}

/// The trimmed content of `tag` in the cleaned text, if the tag occurs.
#[verifier::loop_isolation(false)]
fn find_tag_content(cleaned: &Vec<char>, tag: &Vec<char>) -> (r: Option<Vec<char>>)
    ensures
        match r {
            Some(t) => xml_tag_spec(cleaned@, tag@) == Some(t@),
            None => xml_tag_spec(cleaned@, tag@) is None,
        },
{
    let n = cleaned.len();
    let otag = build_tag(tag, false);
    let ctag = build_tag(tag, true);
    match crate::text::find_sub(cleaned, &otag) {
        Some(start) => {
            let cs = start + otag.len();
            let rest = slice_range(cleaned, cs, cleaned.len());
            match crate::text::find_sub(&rest, &ctag) {
                Some(e) => {
                    let content = slice_range(&rest, 0, e);
                    proof {
                        assert(rest@.subrange(0, e as int) =~= cleaned@.subrange(
                            cs as int,
                            cs + e,
                        ));
                    }
                    Some(trim_chars(&content))
                }
                None => Some(trim_chars(&rest)),
            }
        }
        None => None,
    }
}

/// Extract content from a single XML-style tag. A missing closing tag
/// yields the content to the end of the text.
pub fn parse_xml_tag(response: &str, tag: &str) -> (r: Result<String, ParseError>)
    ensures
        match r {
            Ok(t) => preprocess_spec(response@).len() > 0 && xml_tag_spec(
                preprocess_spec(response@),
                tag@,
            ) == Some(t@),
            Err(e) => (e is EmptyResponse && preprocess_spec(response@).len() == 0) || ((e
                matches ParseError::Unparseable { expected_format, text } && expected_format@
                == "XML tag"@ && text@ == crate::output_parser::error::truncate_spec(
                preprocess_spec(response@),
                200,
            )) && xml_tag_spec(preprocess_spec(response@), tag@) is None),
        },
{
    let cleaned_s = preprocess(response);
    let cleaned = chars_of(cleaned_s.as_str());
    if cleaned.len() == 0 {
        return Err(ParseError::EmptyResponse);
    }
    let tagv = chars_of(tag);
    match find_tag_content(&cleaned, &tagv) {
        Some(content) => Ok(string_of(&content)),
        None => Err(
            ParseError::Unparseable {
                expected_format: crate::output_parser::error::string_from("XML tag"),
                text: truncate(cleaned_s.as_str(), 200),
            },
        ),
    }
}

/// Extract content from several XML-style tags as `(tag, content)` pairs
/// in the order asked for; missing tags are absent from the result, and
/// at least one tag must be found.
#[verifier::loop_isolation(false)]
pub fn parse_xml_tags(response: &str, tags: &Vec<String>) -> (r: Result<
    Vec<(String, String)>,
    ParseError,
>)
    ensures
        match r {
            Ok(pairs) => {
                &&& preprocess_spec(response@).len() > 0
                &&& pairs@.len() > 0
                &&& forall|j: int| 0 <= j < pairs@.len() ==> xml_tag_spec(
                    preprocess_spec(response@),
                    (#[trigger] pairs@[j]).0@,
                ) == Some(pairs@[j].1@)
                &&& forall|k: int| 0 <= k < tags@.len() && xml_tag_spec(
                    preprocess_spec(response@),
                    (#[trigger] tags@[k])@,
                ) is Some ==> exists|j: int|
                    0 <= j < pairs@.len() && (#[trigger] pairs@[j]).0@ == tags@[k]@
            },
            Err(e) => (e is EmptyResponse && preprocess_spec(response@).len() == 0) || ((e
                matches ParseError::Unparseable { expected_format, text } && expected_format@
                == "XML tags"@ && text@ == crate::output_parser::error::truncate_spec(
                preprocess_spec(response@),
                200,
            )) && (forall|k: int|
                0 <= k < tags@.len() ==> xml_tag_spec(
                    preprocess_spec(response@),
                    tags@[k]@,
                ) is None)),
        },
{
    let cleaned_s = preprocess(response);
    let cleaned = chars_of(cleaned_s.as_str());
    if cleaned.len() == 0 {
        return Err(ParseError::EmptyResponse);
    }
    let n = tags.len();
    let mut out: Vec<(String, String)> = Vec::new();
    let mut i: usize = 0;
    while i < n
        invariant
            0 <= i <= n,
            n == tags@.len(),
            cleaned@ == preprocess_spec(response@),
            forall|j: int| 0 <= j < out@.len() ==> xml_tag_spec(
                cleaned@,
                (#[trigger] out@[j]).0@,
            ) == Some(out@[j].1@),
            out@.len() == 0 ==> forall|k: int| 0 <= k < i ==> xml_tag_spec(
                cleaned@,
                tags@[k]@,
            ) is None,
            forall|k: int| 0 <= k < i && xml_tag_spec(
                cleaned@,
                (#[trigger] tags@[k])@,
            ) is Some ==> exists|j: int|
                0 <= j < out@.len() && (#[trigger] out@[j]).0@ == tags@[k]@,
        decreases n - i,
    {
        let tagv = chars_of(tags[i].as_str());
        match find_tag_content(&cleaned, &tagv) {
            Some(content) => {
                let ghost pre = out@;
                out.push(
                    (
                        crate::output_parser::error::string_from(tags[i].as_str()),
                        string_of(&content),
                    ),
                );
                proof {
                    assert(out@[out@.len() - 1].0@ == tags@[i as int]@);
                    assert forall|k: int| 0 <= k < i + 1 && xml_tag_spec(
                        cleaned@,
                        (#[trigger] tags@[k])@,
                    ) is Some implies exists|j: int|
                        0 <= j < out@.len() && (#[trigger] out@[j]).0@ == tags@[k]@ by {
                        if k < i {
                            let j = choose|j: int|
                                0 <= j < pre.len() && (#[trigger] pre[j]).0@ == tags@[k]@;
                            assert(out@[j].0@ == tags@[k]@);
                        } else {
                            assert(out@[out@.len() - 1].0@ == tags@[k]@);
                        }
                    }
                }
            }
            None => {}
        }
        i = i + 1;
    }
    if out.len() == 0 {
        return Err(
            ParseError::Unparseable {
                expected_format: crate::output_parser::error::string_from("XML tags"),
                text: truncate(cleaned_s.as_str(), 200),
            },
        );
    }
    Ok(out)
}

} // verus!
