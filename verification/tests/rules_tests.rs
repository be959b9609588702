use sitemapper::rules::ConfigError;
use sitemapper::rules::DisallowRules;
use sitemapper::score::PriorityAdjustments;

#[test]
fn disallow_rejects_invalid_pattern() {
    let r = DisallowRules::new(vec![String::from("(")]);
    assert!(matches!(r, Err(ConfigError::InvalidPattern)));
}

#[test]
fn disallow_matches_resolved_urls() {
    let rules = DisallowRules::new(vec![String::from(".*\\.pdf")]).unwrap();
    assert!(rules.matches_any("https://example.com/doc.pdf"));
    assert!(!rules.matches_any("https://example.com/doc.html"));
}

#[test]
fn print_view_pattern_matches() {
    let rules = DisallowRules::new(vec![String::from(".*/.*print=Y")]).unwrap();
    assert!(rules.matches_any("https://example.com/page?print=Y"));
    assert!(!rules.matches_any("https://example.com/page"));
}

#[test]
fn substring_pattern_matches_anywhere() {
    let rules = DisallowRules::new(vec![String::from("PAGEN_1")]).unwrap();
    assert!(rules.matches_any("https://example.com/?PAGEN_1=3"));
    assert!(!rules.matches_any("https://example.com/?page=3"));
}

#[test]
fn adjustments_reject_invalid_pattern() {
    let r = PriorityAdjustments::new(vec![(String::from("["), -200)]);
    assert!(matches!(r, Err(ConfigError::InvalidPattern)));
}

#[test]
fn adjustments_reject_out_of_range_delta() {
    let r = PriorityAdjustments::new(vec![(String::from("x"), 1000000)]);
    assert!(matches!(r, Err(ConfigError::InvalidDelta)));
}

#[test]
fn adjustments_accept_valid_rules() {
    let r = PriorityAdjustments::new(vec![(String::from("PAGEN_1"), -200)]);
    assert!(r.is_ok());
    assert_eq!(r.unwrap().len(), 1);
}
