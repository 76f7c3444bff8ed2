//! Tests for clean text extraction and XML-style tag extraction.

use llm_pipeline::output_parser::textparse::parse_text;
use llm_pipeline::output_parser::xml::{parse_xml_tag, parse_xml_tags};

fn tag_names(xs: &[&str]) -> Vec<String> {
    xs.iter().map(|s| s.to_string()).collect()
}

fn lookup<'a>(pairs: &'a [(String, String)], key: &str) -> Option<&'a str> {
    pairs.iter().find(|p| p.0 == key).map(|p| p.1.as_str())
}

#[test]
fn clean_text() {
    let result = parse_text("Paris is the capital.").unwrap();
    assert_eq!(result, "Paris is the capital.");
}

#[test]
fn text_with_think() {
    let result = parse_text("<think>reasoning</think>Paris.").unwrap();
    assert_eq!(result, "Paris.");
}

#[test]
fn sure_prefix() {
    let result = parse_text("Sure! Paris is the capital.").unwrap();
    assert_eq!(result, "Paris is the capital.");
}

#[test]
fn heres_prefix() {
    let result = parse_text("Here's the answer:\nParis.").unwrap();
    assert_eq!(result, "Paris.");
}

#[test]
fn empty_after_strip() {
    let result = parse_text("<think>just thinking</think>");
    assert!(result.is_err());
}

#[test]
fn already_clean() {
    let result = parse_text("No prefix here.").unwrap();
    assert_eq!(result, "No prefix here.");
}

#[test]
fn simple_tag() {
    let result = parse_xml_tag("<answer>Paris</answer>", "answer").unwrap();
    assert_eq!(result, "Paris");
}

#[test]
fn think_then_tag() {
    let result =
        parse_xml_tag("<think>reasoning</think><answer>Paris</answer>", "answer").unwrap();
    assert_eq!(result, "Paris");
}

#[test]
fn multiple_tags() {
    let result = parse_xml_tags("<a>one</a><b>two</b>", &tag_names(&["a", "b"])).unwrap();
    assert_eq!(lookup(&result, "a"), Some("one"));
    assert_eq!(lookup(&result, "b"), Some("two"));
}

#[test]
fn nested_content() {
    let result = parse_xml_tag("<answer>The answer is <b>bold</b></answer>", "answer").unwrap();
    assert_eq!(result, "The answer is <b>bold</b>");
}

#[test]
fn missing_close() {
    let result = parse_xml_tag("<answer>Paris", "answer").unwrap();
    assert_eq!(result, "Paris");
}

#[test]
fn multiline_content() {
    let result = parse_xml_tag("<code>\nfn main() {}\n</code>", "code").unwrap();
    assert_eq!(result, "fn main() {}");
}

#[test]
fn whitespace_trimming() {
    let result = parse_xml_tag("<answer>  Paris  </answer>", "answer").unwrap();
    assert_eq!(result, "Paris");
}

#[test]
fn tag_not_found() {
    let result = parse_xml_tag("<wrong>data</wrong>", "answer");
    assert!(result.is_err());
}

#[test]
fn partial_tags_found() {
    let result = parse_xml_tags("<a>one</a><b>two</b>", &tag_names(&["a", "b", "c"])).unwrap();
    assert_eq!(result.len(), 2);
    assert_eq!(lookup(&result, "a"), Some("one"));
    assert_eq!(lookup(&result, "b"), Some("two"));
}

#[test]
fn no_tags_found() {
    let result = parse_xml_tags("<x>data</x>", &tag_names(&["a", "b"]));
    assert!(result.is_err());
}

#[test]
fn case_sensitive() {
    let result = parse_xml_tag("<Answer>Paris</Answer>", "answer");
    assert!(result.is_err());
}
