//! URL canonicalization and inspection, delegated to the `url` and
//! `url_normalizer` crates.
//!
//! Parsing and canonicalizing a URL takes pages to state exactly, but each
//! result is a deterministic function of the input string alone, so every
//! outcome is given a name (`norm_of`, `join_of`, ...) and the crate's
//! contracts are phrased over those names.

use vstd::prelude::*;

verus! {

/// View of an optional owned string as an optional character sequence.
pub open spec fn opt_str_view(o: Option<String>) -> Option<Seq<char>> {
    match o {
        Some(t) => Some(t@),
        None => None,
    }
}

/// The canonical form of `s` with its scheme rewritten to `scheme`: the URL
/// is parsed, its query pairs are re-ordered, its fragment is dropped and
/// its scheme is replaced; `None` when parsing, canonicalization or the
/// scheme rewrite fails.
pub uninterp spec fn norm_of(s: Seq<char>, scheme: Seq<char>) -> Option<Seq<char>>;

/// The canonical form of `s` without any scheme rewrite, as links are
/// canonicalized at discovery time.
pub uninterp spec fn norm_plain_of(s: Seq<char>) -> Option<Seq<char>>;

/// The absolute URL obtained by resolving the (possibly relative)
/// reference `rel` against the base URL `base`.
pub uninterp spec fn join_of(base: Seq<char>, rel: Seq<char>) -> Option<Seq<char>>;

/// The registrable domain of `s`: `None` when `s` does not parse or its
/// host is not a domain name (an IP address, or no host at all).
pub uninterp spec fn domain_of(s: Seq<char>) -> Option<Seq<char>>;

/// The scheme of `s`, `None` when `s` does not parse.
pub uninterp spec fn scheme_of(s: Seq<char>) -> Option<Seq<char>>;

/// The path component of `s`, `None` when `s` does not parse.
pub uninterp spec fn path_of(s: Seq<char>) -> Option<Seq<char>>;

/// How many key/value pairs the query string of `s` holds, `None` when `s`
/// does not parse.
pub uninterp spec fn query_count_of(s: Seq<char>) -> Option<u64>;

/// Relies on `url::Url::parse`, `url_normalizer::normalize` and
/// `url::Url::set_scheme`: parsing canonicalizes host case, default ports
/// and path segments; `normalize` re-orders query pairs, drops the fragment
/// and downgrades an encrypted scheme; `set_scheme` then installs the
/// requested scheme. The result depends on the two arguments alone.
///
/// The fixed-point clause holds because a serialized `url::Url` parses back
/// to the same value, `normalize` on a query-free, fragment-free URL only
/// re-applies `set_query(None)` and `set_fragment(None)`, and rewriting
/// `http`/`https` over the downgraded scheme is accepted and restores the
/// input. With two or more query pairs the re-ordering pass is not a fixed
/// point, so nothing is claimed there.
#[verifier::external_body]
pub(crate) fn norm_url(s: &str, scheme: &str) -> (r: Option<String>)
    ensures
        opt_str_view(r) == norm_of(s@, scheme@),
        r matches Some(t) ==> ((scheme@ == "http"@ || scheme@ == "https"@) && query_count_of(t@)
            == Some(0u64) ==> norm_of(t@, scheme@) == Some(t@)),
{
    let u = url::Url::parse(s).ok()?;
    let mut n = url_normalizer::normalize(u).ok()?;
    n.set_scheme(scheme).ok()?;
    Some(String::from(n.as_str()))
}

/// Relies on `url::Url::parse` and `url_normalizer::normalize`, as above
/// but without the scheme rewrite.
#[verifier::external_body]
pub(crate) fn norm_plain(s: &str) -> (r: Option<String>)
    ensures
        opt_str_view(r) == norm_plain_of(s@),
{
    let u = url::Url::parse(s).ok()?;
    let n = url_normalizer::normalize(u).ok()?;
    Some(String::from(n.as_str()))
}

/// Relies on `url::Url::join`: resolves a reference against a base URL per
/// the URL standard; the result depends on the two arguments alone.
#[verifier::external_body]
pub(crate) fn join_url(base: &str, rel: &str) -> (r: Option<String>)
    ensures
        opt_str_view(r) == join_of(base@, rel@),
{
    let b = url::Url::parse(base).ok()?;
    let j = b.join(rel).ok()?;
    Some(String::from(j.as_str()))
}

/// Relies on `url::Url::domain`: the host, when it is a domain name.
#[verifier::external_body]
pub(crate) fn url_domain(s: &str) -> (r: Option<String>)
    ensures
        opt_str_view(r) == domain_of(s@),
{
    let u = url::Url::parse(s).ok()?;
    let d = u.domain()?;
    Some(String::from(d))
}

/// Relies on `url::Url::scheme`.
#[verifier::external_body]
pub(crate) fn url_scheme(s: &str) -> (r: Option<String>)
    ensures
        opt_str_view(r) == scheme_of(s@),
{
    let u = url::Url::parse(s).ok()?;
    Some(String::from(u.scheme()))
}

/// Relies on `url::Url::path`: the path component, percent-encoded, always
/// beginning with `/` for URLs that have a host.
#[verifier::external_body]
pub(crate) fn url_path(s: &str) -> (r: Option<String>)
    ensures
        opt_str_view(r) == path_of(s@),
{
    let u = url::Url::parse(s).ok()?;
    Some(String::from(u.path()))
}

/// Relies on `url::Url::query_pairs`: parses the query string as
/// `application/x-www-form-urlencoded` pairs; empty `&`-separated pieces
/// yield no pair.
#[verifier::external_body]
pub(crate) fn url_query_count(s: &str) -> (r: Option<u64>)
    ensures
        r == query_count_of(s@),
{
    let u = url::Url::parse(s).ok()?;
    Some(u.query_pairs().count() as u64)
}

/// Canonicalizes a URL, rewriting its scheme to the crawl root's scheme;
/// `None` marks a URL the crawl must skip.
///
/// On a `http` or `https` crawl, a canonical URL whose query holds no pair
/// is a fixed point: canonicalizing it again returns it unchanged.
pub fn normalize(url: &str, scheme: &str) -> (r: Option<String>)
    ensures
        opt_str_view(r) == norm_of(url@, scheme@),
        r matches Some(t) ==> ((scheme@ == "http"@ || scheme@ == "https"@) && query_count_of(t@)
            == Some(0u64) ==> norm_of(t@, scheme@) == Some(t@)),
{
    norm_url(url, scheme)
}

} // verus!
