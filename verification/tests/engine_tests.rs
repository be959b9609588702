use sitemapper::engine::classify;
use sitemapper::engine::CrawlEngine;
use sitemapper::engine::CrawlError;
use sitemapper::engine::FetchClass;
use sitemapper::engine::FetchEvent;
use sitemapper::html::extract_links;
use sitemapper::rules::DisallowRules;
use sitemapper::score::PriorityAdjustments;

fn engine_with(disallow: Vec<&str>) -> CrawlEngine {
    let mut pats: Vec<String> = Vec::new();
    for p in &disallow {
        pats.push(String::from(*p));
    }
    CrawlEngine::new(
        "https://example.com/",
        0,
        DisallowRules::new(pats).unwrap(),
        PriorityAdjustments::new(Vec::new()).unwrap(),
    )
    .unwrap()
}

fn html_response(body: &str) -> FetchEvent {
    FetchEvent::Response {
        status: 200,
        content_type: Some(String::from("text/html; charset=utf-8")),
        body: Some(String::from(body)),
    }
}

#[test]
fn new_rejects_malformed_root() {
    let r = CrawlEngine::new(
        "not a url",
        25,
        DisallowRules::new(Vec::new()).unwrap(),
        PriorityAdjustments::new(Vec::new()).unwrap(),
    );
    assert!(matches!(r, Err(CrawlError::InvalidRootUrl)));
}

#[test]
fn new_seeds_frontier_with_root() {
    let engine = engine_with(vec![]);
    assert_eq!(engine.queue_len(), 1);
    assert_eq!(engine.discovered(), 1);
    assert_eq!(engine.root().as_str(), "https://example.com/");
}

#[test]
fn classify_by_status_and_content_type() {
    assert_eq!(classify(200, &Some(String::from("text/html; charset=utf-8"))), FetchClass::Html);
    assert_eq!(classify(200, &Some(String::from("application/pdf"))), FetchClass::NotHtml);
    assert_eq!(classify(200, &None), FetchClass::NotHtml);
    assert_eq!(classify(404, &Some(String::from("text/html"))), FetchClass::HttpError);
    assert_eq!(classify(301, &None), FetchClass::HttpError);
}

#[test]
fn extract_links_yields_hrefs_in_document_order() {
    let body = "<html><body><a href=\"/a\">a</a><p><a href=\"https://x.org/\">x</a></p>\
                <a name=\"no-href\">skip</a><a href=\"/b\">b</a></body></html>";
    let links = extract_links(body);
    assert_eq!(
        links,
        vec![String::from("/a"), String::from("https://x.org/"), String::from("/b")]
    );
}

#[test]
fn root_page_with_external_and_internal_link() {
    let mut engine = engine_with(vec![]);
    let first = engine.next_url();
    assert_eq!(first, Some(String::from("https://example.com/")));
    let body = "<html><body><a href=\"https://external.org/x\">out</a>\
                <a href=\"/a\">in</a></body></html>";
    engine.handle_event("https://example.com/", &html_response(body));
    // Only the in-domain link was enqueued.
    assert_eq!(engine.queue_len(), 1);
    assert!(!engine.seen("https://external.org/x"));
    assert!(!engine.seen("http://external.org/x"));

    let second = engine.next_url();
    assert_eq!(second, Some(String::from("https://example.com/a")));
    engine.handle_event("https://example.com/a", &html_response("<html></html>"));

    // The crawl drains without ever fetching the external link.
    assert_eq!(engine.next_url(), None);
    assert_eq!(engine.scored(), 2);
    assert_eq!(engine.score_of("https://example.com/"), Some(1000));
    assert_eq!(engine.score_of("https://example.com/a"), Some(900));
}

#[test]
fn disallowed_link_never_enqueued() {
    let mut engine = engine_with(vec![".*\\.pdf"]);
    let first = engine.next_url();
    assert_eq!(first, Some(String::from("https://example.com/")));
    // The same disallowed target is reachable through two anchors.
    let body = "<a href=\"/doc.pdf\">one</a><a href=\"/ok\">fine</a><a href=\"/doc.pdf\">two</a>";
    engine.handle_event("https://example.com/", &html_response(body));
    assert_eq!(engine.queue_len(), 1);
    assert!(!engine.seen("http://example.com/doc.pdf"));
    assert!(!engine.seen("https://example.com/doc.pdf"));
    // The accepted link is stored in its canonical (scheme-downgraded) form
    // and rewritten to the crawl scheme only when popped for fetching.
    assert!(engine.seen("http://example.com/ok"));
    assert_eq!(engine.next_url(), Some(String::from("https://example.com/ok")));
}

#[test]
fn protocol_relative_external_link_discarded_at_pop() {
    let mut engine = engine_with(vec![]);
    let first = engine.next_url().unwrap();
    // "//evil.org/x" is root-relative at the syntactic level, but resolves
    // onto another domain; the domain check at pop time discards it.
    engine.handle_event(first.as_str(), &html_response("<a href=\"//evil.org/x\">x</a>"));
    assert_eq!(engine.queue_len(), 1);
    assert_eq!(engine.next_url(), None);
    assert_eq!(engine.scored(), 1);
}

#[test]
fn print_view_variant_filtered_as_duplicate_content() {
    let mut engine = engine_with(vec![".*/.*print=Y"]);
    engine.next_url();
    let body = "<a href=\"/page?print=Y\">print</a><a href=\"/page\">page</a>";
    engine.handle_event("https://example.com/", &html_response(body));
    assert_eq!(engine.queue_len(), 1);
    assert_eq!(engine.next_url(), Some(String::from("https://example.com/page")));
}

#[test]
fn http_error_scores_but_contributes_no_links() {
    let mut engine = engine_with(vec![]);
    let first = engine.next_url().unwrap();
    let ev = FetchEvent::Response {
        status: 404,
        content_type: Some(String::from("text/html")),
        body: Some(String::from("<a href=\"/found\">x</a>")),
    };
    engine.handle_event(first.as_str(), &ev);
    assert_eq!(engine.scored(), 1);
    assert_eq!(engine.score_of("https://example.com/"), Some(1000));
    assert_eq!(engine.queue_len(), 0);
    assert_eq!(engine.next_url(), None);
}

#[test]
fn pdf_page_recorded_with_score_but_not_parsed() {
    let mut engine = engine_with(vec![]);
    let first = engine.next_url().unwrap();
    let ev = FetchEvent::Response {
        status: 200,
        content_type: Some(String::from("application/pdf")),
        body: Some(String::from("<a href=\"/inside\">x</a>")),
    };
    engine.handle_event(first.as_str(), &ev);
    assert_eq!(engine.score_of("https://example.com/"), Some(1000));
    assert_eq!(engine.queue_len(), 0);
    assert_eq!(engine.next_url(), None);
}

#[test]
fn transport_failure_keeps_entry_and_stops_exploration() {
    let mut engine = engine_with(vec![]);
    let first = engine.next_url().unwrap();
    engine.handle_event(first.as_str(), &FetchEvent::TransportFailed);
    assert_eq!(engine.scored(), 1);
    assert_eq!(engine.queue_len(), 0);
}

#[test]
fn score_written_once_never_altered() {
    let mut engine = engine_with(vec![]);
    let first = engine.next_url().unwrap();
    // Two pages link to each other; the second report of the root must not
    // rewrite its score.
    engine.handle_event(first.as_str(), &html_response("<a href=\"/a?x=1\">a</a>"));
    assert_eq!(engine.score_of("https://example.com/"), Some(1000));
    let second = engine.next_url().unwrap();
    assert_eq!(second, "https://example.com/a?x=1");
    engine.handle_event(second.as_str(), &html_response("<a href=\"/a?x=1\">self</a>"));
    assert_eq!(engine.score_of("https://example.com/a?x=1"), Some(800));
    engine.handle_event(second.as_str(), &html_response(""));
    assert_eq!(engine.score_of("https://example.com/a?x=1"), Some(800));
    assert_eq!(engine.scored(), 2);
}

#[test]
fn results_hold_every_entry_in_insertion_order() {
    let mut engine = engine_with(vec![]);
    let first = engine.next_url().unwrap();
    engine.handle_event(first.as_str(), &html_response("<a href=\"/a\">a</a>"));
    let second = engine.next_url().unwrap();
    engine.handle_event(second.as_str(), &html_response(""));
    let entries = engine.results();
    assert_eq!(entries.len(), 2);
    assert_eq!(entries[0], (String::from("https://example.com/"), 1000));
    assert_eq!(entries[1], (String::from("https://example.com/a"), 900));
}
