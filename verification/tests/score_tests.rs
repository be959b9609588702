use sitemapper::score::count_segments;
use sitemapper::score::PriorityAdjustments;

fn no_adjustments() -> PriorityAdjustments {
    PriorityAdjustments::new(Vec::new()).unwrap()
}

#[test]
fn segments_of_paths() {
    assert_eq!(count_segments("/"), 0);
    assert_eq!(count_segments(""), 0);
    assert_eq!(count_segments("/a"), 1);
    assert_eq!(count_segments("/a/"), 1);
    assert_eq!(count_segments("/a/b"), 2);
    assert_eq!(count_segments("/a//b/"), 2);
}

#[test]
fn root_scores_full_priority() {
    assert_eq!(no_adjustments().score_milli("https://example.com/"), 1000);
}

#[test]
fn each_segment_and_query_pair_costs_a_tenth() {
    let adj = no_adjustments();
    assert_eq!(adj.score_milli("https://example.com/a"), 900);
    assert_eq!(adj.score_milli("https://example.com/a/b"), 800);
    assert_eq!(adj.score_milli("https://example.com/a/b?x=1"), 700);
    assert_eq!(adj.score_milli("https://example.com/?x=1&y=2"), 800);
}

#[test]
fn score_floored_at_a_tenth() {
    let adj = no_adjustments();
    assert_eq!(adj.score_milli("https://example.com/a/b/c/d/e/f/g/h/i/j/k"), 100);
}

#[test]
fn pagen_adjustment_lowers_score_by_exactly_its_delta() {
    let adj = PriorityAdjustments::new(vec![(String::from("PAGEN_1"), -200)]).unwrap();
    let unadjusted = no_adjustments().score_milli("https://example.com/?PAGEN_1=3");
    let adjusted = adj.score_milli("https://example.com/?PAGEN_1=3");
    assert_eq!(unadjusted, 900);
    assert_eq!(adjusted, 700);
    assert_eq!(unadjusted - adjusted, 200);
}

#[test]
fn pagen_adjustment_respects_floor() {
    let adj = PriorityAdjustments::new(vec![(String::from("PAGEN_1"), -200)]).unwrap();
    // Base score is already at the floor; the delta cannot push it lower.
    let deep = "https://example.com/a/b/c/d/e/f/g/h/i/j?PAGEN_1=3";
    assert_eq!(adj.score_milli(deep), 100);
}

#[test]
fn non_matching_adjustment_changes_nothing() {
    let adj = PriorityAdjustments::new(vec![(String::from("PAGEN_1"), -200)]).unwrap();
    assert_eq!(adj.score_milli("https://example.com/a"), 900);
}

#[test]
fn positive_adjustment_raises_score() {
    let adj = PriorityAdjustments::new(vec![(String::from("news"), 300)]).unwrap();
    assert_eq!(adj.score_milli("https://example.com/news/today"), 1100);
}
