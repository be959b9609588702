//! Link extraction: the `href` attribute of every anchor element of an
//! HTML document, in document order, delegated to the `select` crate.
//!
//! What a full HTML parse yields takes pages to state, but it is a
//! deterministic function of the document text alone, so the result is
//! given the name `links_of` and contracts are phrased over it.

use vstd::prelude::*;

verus! {

/// The `href` attribute of each anchor element of `html`, in document
/// order, exactly as written in the document.
pub uninterp spec fn links_of(html: Seq<char>) -> Seq<Seq<char>>;

/// Relies on `select::document::Document::from`, `Document::find` with the
/// `Name("a")` predicate, and `Node::attr("href")`: parses the document and
/// yields each anchor's `href` attribute verbatim, in document order, a
/// function of the document text alone.
#[verifier::external_body]
pub(crate) fn extract_links_raw(html: &str) -> (r: Vec<String>)
    ensures
        r.deep_view() == links_of(html@),
{
    let document = select::document::Document::from(html);
    let mut out: Vec<String> = Vec::new();
    for node in document.find(select::predicate::Name("a")) {
        if let Some(href) = node.attr("href") {
            out.push(String::from(href));
        }
    }
    out
}

/// Parses an HTML document and yields every anchor's `href` attribute
/// verbatim, in document order.
pub fn extract_links(html: &str) -> (r: Vec<String>)
    ensures
        r.deep_view() == links_of(html@),
{
    extract_links_raw(html)
}

} // verus!
