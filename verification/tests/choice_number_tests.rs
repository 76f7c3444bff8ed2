//! Tests for choice and number extraction.

use llm_pipeline::output_parser::choice::parse_choice;
use llm_pipeline::output_parser::number::{parse_number, parse_number_in_range};

fn choices(xs: &[&str]) -> Vec<String> {
    xs.iter().map(|s| s.to_string()).collect()
}

#[test]
fn exact_match() {
    let result = parse_choice("positive", &choices(&["positive", "negative"])).unwrap();
    assert_eq!(result, "positive");
}

#[test]
fn with_period() {
    let result = parse_choice("positive.", &choices(&["positive", "negative"])).unwrap();
    assert_eq!(result, "positive");
}

#[test]
fn bold() {
    let result = parse_choice("**positive**", &choices(&["positive", "negative"])).unwrap();
    assert_eq!(result, "positive");
}

#[test]
fn quoted() {
    let result = parse_choice("\"positive\"", &choices(&["positive", "negative"])).unwrap();
    assert_eq!(result, "positive");
}

#[test]
fn choice_in_prose() {
    let result =
        parse_choice("I'd classify this as positive", &choices(&["positive", "negative"])).unwrap();
    assert_eq!(result, "positive");
}

#[test]
fn case_insensitive() {
    let result = parse_choice("POSITIVE", &choices(&["positive", "negative"])).unwrap();
    assert_eq!(result, "positive");
}

#[test]
fn first_wins() {
    let result =
        parse_choice("positive and negative aspects", &choices(&["positive", "negative"])).unwrap();
    assert_eq!(result, "positive");
}

#[test]
fn choice_with_think() {
    let result =
        parse_choice("<think>hmm</think>negative", &choices(&["positive", "negative"])).unwrap();
    assert_eq!(result, "negative");
}

#[test]
fn no_match() {
    let result = parse_choice("maybe", &choices(&["positive", "negative"]));
    assert!(result.is_err());
}

#[test]
fn no_substring() {
    let result = parse_choice("unpositive", &choices(&["positive"]));
    assert!(result.is_err());
}

#[test]
fn choice_of_own_option_returns_it() {
    let set = choices(&["alpha", "beta", "gamma2"]);
    for c in &set {
        let result = parse_choice(c, &set).unwrap();
        assert_eq!(&result, c);
    }
}

#[test]
fn integer() {
    let result: i32 = parse_number("8").unwrap().parse().unwrap();
    assert_eq!(result, 8);
}

#[test]
fn float() {
    let result: f64 = parse_number("8.5").unwrap().parse().unwrap();
    assert!((result - 8.5).abs() < f64::EPSILON);
}

#[test]
fn fraction() {
    let result: i32 = parse_number("8/10").unwrap().parse().unwrap();
    assert_eq!(result, 8);
}

#[test]
fn number_in_prose() {
    let result: f64 = parse_number("I'd give it a 7.5").unwrap().parse().unwrap();
    assert!((result - 7.5).abs() < f64::EPSILON);
}

#[test]
fn labeled() {
    let result: i32 = parse_number("Score: 9").unwrap().parse().unwrap();
    assert_eq!(result, 9);
}

#[test]
fn number_with_think() {
    let result: f64 = parse_number("<think>considering</think>8.5").unwrap().parse().unwrap();
    assert!((result - 8.5).abs() < f64::EPSILON);
}

#[test]
fn negative() {
    let result: i32 = parse_number("-3").unwrap().parse().unwrap();
    assert_eq!(result, -3);
}

#[test]
fn range_pass() {
    let result: i32 = parse_number_in_range("8", 1, 10).unwrap().parse().unwrap();
    assert_eq!(result, 8);
}

#[test]
fn range_fail() {
    let result = parse_number_in_range("15", 1, 10);
    assert!(result.is_err());
}

#[test]
fn no_number() {
    let result = parse_number("great work");
    assert!(result.is_err());
}

#[test]
fn multiple_numbers_labeled() {
    let result: i32 = parse_number("Page 3 of 5, Score: 8").unwrap().parse().unwrap();
    assert_eq!(result, 8);
}

#[test]
fn labeled_fraction_takes_numerator() {
    let result = parse_number("Score: 8.5/10").unwrap();
    assert_eq!(result, "8.5");
}

#[test]
fn range_check_is_exact_on_decimals() {
    assert!(parse_number_in_range("4.999", 0, 5).is_ok());
    assert!(parse_number_in_range("5.0", 0, 5).is_ok());
    assert!(parse_number_in_range("5.001", 0, 5).is_err());
    assert!(parse_number_in_range("-0.5", 0, 5).is_err());
    assert!(parse_number_in_range("-0.5", -1, 5).is_ok());
}
