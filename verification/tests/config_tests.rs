use sitemapper::config::parse_disallow_config;
use sitemapper::config::parse_priority_config;
use sitemapper::config::parse_root_config;

fn lines(v: &[&str]) -> Vec<String> {
    let mut out: Vec<String> = Vec::new();
    for s in v {
        out.push(String::from(*s));
    }
    out
}

#[test]
fn root_config_url_and_delay() {
    let (url, delay) = parse_root_config(&lines(&[
        "# the root",
        "https://example.com",
        "# the delay",
        "40",
    ]));
    assert_eq!(url, Some(String::from("https://example.com")));
    assert_eq!(delay, 40);
}

#[test]
fn root_config_default_delay() {
    let (url, delay) = parse_root_config(&lines(&["https://example.com"]));
    assert_eq!(url, Some(String::from("https://example.com")));
    assert_eq!(delay, 25);
}

#[test]
fn root_config_malformed_delay_skipped() {
    let (url, delay) = parse_root_config(&lines(&["https://example.com", "soon", "30"]));
    assert_eq!(url, Some(String::from("https://example.com")));
    assert_eq!(delay, 30);
}

#[test]
fn root_config_empty() {
    let (url, delay) = parse_root_config(&lines(&["# nothing here"]));
    assert_eq!(url, None);
    assert_eq!(delay, 25);
}

#[test]
fn disallow_config_appends_print_pattern() {
    let pats = parse_disallow_config(&lines(&["# skip images", ".*\\.png"]));
    assert_eq!(pats, vec![String::from(".*\\.png"), String::from(".*/.*print=Y")]);
}

#[test]
fn disallow_config_empty_still_excludes_print_views() {
    let pats = parse_disallow_config(&lines(&[]));
    assert_eq!(pats, vec![String::from(".*/.*print=Y")]);
}

#[test]
fn priority_config_pairs() {
    let rules = parse_priority_config(&lines(&["# rule", ".*PAGEN_1.*", "-0.2"]));
    assert_eq!(rules, vec![(String::from(".*PAGEN_1.*"), -200)]);
}

#[test]
fn priority_config_malformed_delta_skipped() {
    let rules = parse_priority_config(&lines(&["pat", "oops", "pat2", "0.3"]));
    assert_eq!(rules, vec![(String::from("pat2"), 300)]);
}

#[test]
fn priority_config_comment_between_pattern_and_delta() {
    let rules = parse_priority_config(&lines(&["pat", "# note", "-0.1"]));
    assert_eq!(rules, vec![(String::from("pat"), -100)]);
}

#[test]
fn priority_config_repeated_pattern_keeps_last_delta() {
    let rules = parse_priority_config(&lines(&["p", "-0.1", "p", "-0.2"]));
    assert_eq!(rules, vec![(String::from("p"), -200)]);
}

#[test]
fn priority_config_dangling_pattern_dropped() {
    let rules = parse_priority_config(&lines(&["p", "-0.1", "dangling"]));
    assert_eq!(rules, vec![(String::from("p"), -100)]);
}
