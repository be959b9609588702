use sitemapper::urlops::normalize;

#[test]
fn normalize_keeps_canonical_root() {
    let r = normalize("https://example.com/", "https");
    assert_eq!(r, Some(String::from("https://example.com/")));
}

#[test]
fn normalize_canonicalizes_host_port_path_fragment() {
    let r = normalize("https://Example.COM:443/a/../b?x=1&print=Y#frag", "https");
    assert_eq!(r, Some(String::from("https://example.com/b?x=1&print=Y")));
}

#[test]
fn normalize_rewrites_scheme_to_root_scheme() {
    let r = normalize("http://example.com/x", "https");
    assert_eq!(r, Some(String::from("https://example.com/x")));
}

#[test]
fn normalize_idempotent_without_query() {
    let once = normalize("https://Example.COM/x/./y/../z#f", "https").unwrap();
    let twice = normalize(once.as_str(), "https");
    assert_eq!(twice, Some(once));
}

#[test]
fn normalize_idempotent_on_root() {
    let once = normalize("https://example.com", "https").unwrap();
    let twice = normalize(once.as_str(), "https").unwrap();
    let thrice = normalize(twice.as_str(), "https").unwrap();
    assert_eq!(once, twice);
    assert_eq!(twice, thrice);
}

#[test]
fn normalize_orders_query_pairs() {
    let r = normalize("https://example.com/?b=2&a=1", "https");
    assert_eq!(r, Some(String::from("https://example.com/?a=1&b=2")));
}

#[test]
fn normalize_rejects_malformed_input() {
    assert_eq!(normalize("not a url", "https"), None);
    assert_eq!(normalize("/relative/only", "https"), None);
}

#[test]
fn normalize_rejects_impossible_scheme_rewrite() {
    // A special scheme cannot replace a non-special one.
    assert_eq!(normalize("mailto:user@example.com", "https"), None);
}
