//! The time and style codec.

use coach::codec::{convert_style, matches_time_format, time_to_miliseconds, Style};

#[test]
fn time_standard_token() {
    assert_eq!(time_to_miliseconds("01:23.45"), 83450);
}

#[test]
fn time_scenario_value() {
    assert_eq!(time_to_miliseconds("02:15.30"), 135300);
}

#[test]
fn time_suffix_and_whitespace_are_ignored() {
    // an optional trailing course suffix and/or whitespace never changes
    // the value
    assert_eq!(time_to_miliseconds("01:23.45S"), 83450);
    assert_eq!(time_to_miliseconds("01:23.45L"), 83450);
    assert_eq!(time_to_miliseconds("01:23.45 "), 83450);
    assert_eq!(time_to_miliseconds("01:23.45L "), 83450);
    assert_eq!(time_to_miliseconds("02:15.30L"), 135300);
}

#[test]
fn time_empty_is_zero() {
    assert_eq!(time_to_miliseconds(""), 0);
    assert_eq!(time_to_miliseconds("   "), 0);
}

#[test]
fn time_malformed_minute_counts_zero() {
    // minute segment is not a number: that segment counts zero, the rest holds
    assert_eq!(time_to_miliseconds("xx:10.05"), 10 * 1000 + 5 * 10);
}

#[test]
fn time_missing_centiseconds_counts_zero() {
    // no '.' segment: the centisecond segment is malformed and counts zero
    assert_eq!(time_to_miliseconds("01:23"), 83000);
}

#[test]
fn time_fully_malformed_is_zero() {
    assert_eq!(time_to_miliseconds("ab:cd.ef"), 0);
    assert_eq!(time_to_miliseconds("nonsense"), 0);
    assert_eq!(time_to_miliseconds(":."), 0);
}

#[test]
fn time_no_colon() {
    // no ':' means no second segment; centiseconds still parse
    assert_eq!(time_to_miliseconds("0123.45"), 450);
}

#[test]
fn style_known_abbreviations() {
    assert_eq!(convert_style("Fr"), Style::Freestyle);
    assert_eq!(convert_style("Free"), Style::Freestyle);
    assert_eq!(convert_style("Bk"), Style::Backstroke);
    assert_eq!(convert_style("Back"), Style::Backstroke);
    assert_eq!(convert_style("Br"), Style::Breaststroke);
    assert_eq!(convert_style("Breast"), Style::Breaststroke);
    assert_eq!(convert_style("FL"), Style::Butterfly);
    assert_eq!(convert_style("Fly"), Style::Butterfly);
    assert_eq!(convert_style("IM"), Style::Medley);
    assert_eq!(convert_style("I.M"), Style::Medley);
}

#[test]
fn style_total_on_unknown_input() {
    // any input, known or not, yields a value
    assert_eq!(convert_style(""), Style::Unknown);
    assert_eq!(convert_style("fr"), Style::Unknown);
    assert_eq!(convert_style("Dog paddle"), Style::Unknown);
    assert_eq!(convert_style("FREESTYLE"), Style::Unknown);
}

#[test]
fn style_labels() {
    assert_eq!(convert_style("Fr").label(), "FREESTYLE");
    assert_eq!(convert_style("Bk").label(), "BACKSTROKE");
    assert_eq!(convert_style("Br").label(), "BREASTSTROKE");
    assert_eq!(convert_style("Fly").label(), "BUTTERFLY");
    assert_eq!(convert_style("IM").label(), "MEDLEY");
    assert_eq!(convert_style("?").label(), "UNKNOWN");
}

fn chars(s: &str) -> Vec<char> {
    s.chars().collect()
}

#[test]
fn time_format_accepts_suffixed_times() {
    assert!(matches_time_format(&chars("02:15.30L")));
    assert!(matches_time_format(&chars("02:15.30S")));
    assert!(matches_time_format(&chars("59:59.99X")));
}

#[test]
fn time_format_rejects_bad_shapes() {
    assert!(!matches_time_format(&chars("02:15.30")));  // no suffix
    assert!(!matches_time_format(&chars("92:15.30L")));  // minute tens over five
    assert!(!matches_time_format(&chars("02:95.30L")));  // second tens over five
    assert!(!matches_time_format(&chars("02:15.30 ")));  // whitespace suffix
    assert!(!matches_time_format(&chars("2:15.30L")));  // too short
    assert!(!matches_time_format(&chars("")));
}
