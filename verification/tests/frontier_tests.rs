use sitemapper::frontier::Frontier;

#[test]
fn push_dedups_and_counts_distinct_urls() {
    let mut f = Frontier::new();
    f.push(String::from("http://example.com/a"));
    f.push(String::from("http://example.com/b"));
    f.push(String::from("http://example.com/a"));
    f.push(String::from("http://example.com/c"));
    f.push(String::from("http://example.com/b"));
    assert_eq!(f.discovered(), 3);
    assert_eq!(f.queue_len(), 3);
}

#[test]
fn pop_is_lifo() {
    let mut f = Frontier::new();
    f.push(String::from("a"));
    f.push(String::from("b"));
    f.push(String::from("c"));
    assert_eq!(f.pop(), Some(String::from("c")));
    assert_eq!(f.pop(), Some(String::from("b")));
    assert_eq!(f.pop(), Some(String::from("a")));
    assert_eq!(f.pop(), None);
}

#[test]
fn visited_survives_pop() {
    let mut f = Frontier::new();
    f.push(String::from("a"));
    assert_eq!(f.pop(), Some(String::from("a")));
    assert!(f.seen("a"));
    assert_eq!(f.discovered(), 1);
    // A popped URL is never enqueued again.
    f.push(String::from("a"));
    assert_eq!(f.queue_len(), 0);
}

#[test]
fn pop_on_empty_is_none() {
    let mut f = Frontier::new();
    assert_eq!(f.pop(), None);
    assert_eq!(f.discovered(), 0);
}
