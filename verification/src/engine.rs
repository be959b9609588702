//! The crawl engine: a state machine over the frontier and the score map.
//!
//! The engine performs no I/O. A driver alternates two calls: `next_url`
//! pops, canonicalizes and scope-checks the next URL to fetch, and
//! `handle_event` digests the fetch's outcome — every response records the
//! URL's score once, and only a successful HTML response contributes its
//! links to the frontier.

use crate::frontier::Frontier;
use crate::frontier::FrontierView;
use crate::frontier::spec_push;
use crate::html::extract_links;
use crate::html::links_of;
use crate::rules::DisallowRules;
use crate::rules::spec_match_any;
use crate::score::PriorityAdjustments;
use crate::score::spec_score;
use crate::score::spec_score64;
use crate::scores::ScoreMap;
use crate::scores::spec_lookup;
use crate::scores::spec_record;
use crate::text::str_eq;
use crate::text::str_starts_with;
use crate::urlops::domain_of;
use crate::urlops::join_of;
use crate::urlops::join_url;
use crate::urlops::norm_of;
use crate::urlops::normalize;
use crate::urlops::norm_plain;
use crate::urlops::norm_plain_of;
use crate::urlops::norm_url;
use crate::urlops::opt_str_view;
use crate::urlops::scheme_of;
use crate::urlops::url_domain;
use crate::urlops::url_scheme;
use vstd::prelude::*;
use vstd::seq_lib::lemma_seq_contains_after_push;

verus! {

/// The crawl cannot start: the root URL does not parse or cannot be
/// canonicalized.
#[derive(Clone, Copy, PartialEq, Eq, Structural, Debug)]
pub enum CrawlError {
    InvalidRootUrl,
}

/// How a fetched response classifies: a `200` HTML page is explored, a
/// `200` page of any other content type is kept but not explored, and any
/// other status is an HTTP error.
#[derive(Clone, Copy, PartialEq, Eq, Structural, Debug)]
pub enum FetchClass {
    Html,
    NotHtml,
    HttpError,
}

/// The outcome of fetching one URL, as the driver reports it: either a
/// response (whose body may have been undecodable), or a transport failure
/// (DNS, connection or timeout). Neither is retried.
pub enum FetchEvent {
    Response { status: u16, content_type: Option<String>, body: Option<String> },
    TransportFailed,
}

/// Classification of a response by status code and `Content-Type` header.
pub open spec fn spec_classify(status: u16, ct: Option<Seq<char>>) -> FetchClass {
    if status != 200 {
        FetchClass::HttpError
    } else {
        match ct {
            Some(c) => if "text/html"@.is_prefix_of(c) {
                FetchClass::Html
            } else {
                FetchClass::NotHtml
            },
            None => FetchClass::NotHtml,
        }
    }
}

/// Classifies a response: `Html` exactly for status 200 with a
/// `Content-Type` beginning `text/html`; any other status is an HTTP
/// error; any other content type (or none) is a non-HTML page.
pub fn classify(status: u16, content_type: &Option<String>) -> (r: FetchClass)
    ensures
        r == spec_classify(status, opt_str_view(*content_type)),
{
    if status != 200 {
        FetchClass::HttpError
    } else {
        match content_type {
            Some(c) => {
                if str_starts_with(c.as_str(), "text/html") {
                    FetchClass::Html
                } else {
                    FetchClass::NotHtml
                }
            },
            None => FetchClass::NotHtml,
        }
    }
}

/// Whether an event lets the crawl explore the page's links: a response
/// classified as HTML whose body was decoded.
pub open spec fn spec_explorable(ev: FetchEvent) -> bool {
    match ev {
        FetchEvent::Response { status, content_type, body } => body is Some && spec_classify(
            status,
            opt_str_view(content_type),
        ) is Html,
        FetchEvent::TransportFailed => false,
    }
}

/// The decoded body of an explorable event.
pub open spec fn spec_event_body(ev: FetchEvent) -> Seq<char> {
    match ev {
        FetchEvent::Response { body: Some(b), .. } => b@,
        _ => Seq::empty(),
    }
}

/// Whether a raw link is in scope at the syntactic level: root-relative
/// (it begins with `/` and is not exactly `/`) or it begins with the root
/// site's own URL string.
pub open spec fn spec_in_scope(link: Seq<char>, root: Seq<char>) -> bool {
    ("/"@.is_prefix_of(link) && link != "/"@) || root.is_prefix_of(link)
}

/// What becomes of one raw link: an in-scope link is resolved against the
/// root, dropped when it matches a disallow pattern, and canonicalized;
/// the canonical URL is what the frontier receives. `None` means the link
/// is discarded.
pub open spec fn spec_accept(link: Seq<char>, root: Seq<char>, disallow: Seq<Seq<char>>) -> Option<
    Seq<char>,
> {
    if spec_in_scope(link, root) {
        match join_of(root, link) {
            Some(j) => if !spec_match_any(disallow, j) {
                norm_plain_of(j)
            } else {
                None
            },
            None => None,
        }
    } else {
        None
    }
}

/// What pushing every accepted link of a page does to the frontier, in
/// document order.
pub open spec fn spec_push_links(
    f: FrontierView,
    links: Seq<Seq<char>>,
    root: Seq<char>,
    disallow: Seq<Seq<char>>,
) -> FrontierView
    decreases links.len(),
{
    if links.len() == 0 {
        f
    } else {
        let g = spec_push_links(f, links.drop_last(), root, disallow);
        match spec_accept(links.last(), root, disallow) {
            Some(n) => spec_push(g, n),
            None => g,
        }
    }
}

/// Mathematical state of the crawl engine.
#[verifier::ext_equal]
pub ghost struct EngineView {
    /// The canonical root URL.
    pub root: Seq<char>,
    /// The root's scheme, rewritten onto every URL popped for fetching.
    pub scheme: Seq<char>,
    /// The root's domain; a popped URL is fetched only when its domain
    /// matches.
    pub domain: Option<Seq<char>>,
    /// The disallow patterns.
    pub disallow: Seq<Seq<char>>,
    /// The priority-adjustment rules.
    pub adjust: Seq<(Seq<char>, i64)>,
    /// The inter-request delay in milliseconds.
    pub delay: u64,
    /// The frontier queue, most recently discovered last.
    pub queue: Seq<Seq<char>>,
    /// Every URL ever enqueued.
    pub visited: Seq<Seq<char>>,
    /// The score map, in insertion order.
    pub scores: Seq<(Seq<char>, i64)>,
}

impl EngineView {
    /// The frontier part of the state.
    pub open spec fn fv(self) -> FrontierView {
        FrontierView { queue: self.queue, visited: self.visited }
    }
}

/// What `next_url` yields on a given queue: pop from the LIFO end until a
/// URL canonicalizes and matches the root's domain; return it with the
/// remaining queue, or nothing when the queue drains first.
pub open spec fn spec_next(q: Seq<Seq<char>>, scheme: Seq<char>, dom: Option<Seq<char>>) -> (
    Option<Seq<char>>,
    Seq<Seq<char>>,
)
    decreases q.len(),
{
    if q.len() == 0 {
        (None, q)
    } else {
        let rest = q.drop_last();
        match norm_of(q.last(), scheme) {
            Some(n) => if domain_of(n) == dom {
                (Some(n), rest)
            } else {
                spec_next(rest, scheme, dom)
            },
            None => spec_next(rest, scheme, dom),
        }
    }
}

/// Whether two optional strings hold the same characters.
fn opt_string_eq(a: &Option<String>, b: &Option<String>) -> (r: bool)
    ensures
        r == (opt_str_view(*a) == opt_str_view(*b)),
{
    match (a, b) {
        (None, None) => true,
        (Some(x), Some(y)) => str_eq(x.as_str(), y.as_str()),
        _ => false,
    }
}

/// The crawl engine. Owns the configuration, the frontier and the score
/// map for the run's duration; single-threaded by design.
pub struct CrawlEngine {
    root: String,
    scheme: String,
    domain: Option<String>,
    disallow: DisallowRules,
    adjust: PriorityAdjustments,
    delay: u64,
    frontier: Frontier,
    scores: ScoreMap,
}

impl View for CrawlEngine {
    type V = EngineView;

    closed spec fn view(&self) -> EngineView {
        EngineView {
            root: self.root@,
            scheme: self.scheme@,
            domain: opt_str_view(self.domain),
            disallow: self.disallow@,
            adjust: self.adjust@,
            delay: self.delay,
            queue: self.frontier@.queue,
            visited: self.frontier@.visited,
            scores: self.scores@,
        }
    }
}

impl CrawlEngine {
    /// Starts a crawl: the root URL is canonicalized (keeping its own
    /// scheme) and seeds the frontier as the only discovered URL. Fails
    /// exactly when the root does not parse or cannot be canonicalized —
    /// the one error that aborts a run.
    pub fn new(
        root_url: &str,
        delay: u64,
        disallow: DisallowRules,
        adjust: PriorityAdjustments,
    ) -> (r: Result<CrawlEngine, CrawlError>)
        ensures
            r is Ok <==> (scheme_of(root_url@) matches Some(sch) && norm_of(root_url@, sch)
                is Some),
            r matches Ok(e) ==> (scheme_of(root_url@) matches Some(sch) && norm_of(
                root_url@,
                sch,
            ) matches Some(nr) && e@ == (EngineView {
                root: nr,
                scheme: sch,
                domain: domain_of(nr),
                disallow: disallow@,
                adjust: adjust@,
                delay: delay,
                queue: seq![nr],
                visited: seq![nr],
                scores: Seq::empty(),
            })),
            r matches Err(err) ==> err == CrawlError::InvalidRootUrl,
    {
        let scheme = match url_scheme(root_url) {
            Some(s) => s,
            None => {
                return Err(CrawlError::InvalidRootUrl);
            },
        };
        let nroot = match norm_url(root_url, scheme.as_str()) {
            Some(n) => n,
            None => {
                return Err(CrawlError::InvalidRootUrl);
            },
        };
        let domain = url_domain(nroot.as_str());
        let mut frontier = Frontier::new();
        frontier.push(nroot.clone());
        let engine = CrawlEngine {
            root: nroot,
            scheme,
            domain,
            disallow,
            adjust,
            delay,
            frontier,
            scores: ScoreMap::new(),
        };
        proof {
            assert(engine@.queue =~= seq![engine.root@]);
            assert(engine@.visited =~= seq![engine.root@]);
        }
        Ok(engine)
    }

    /// Pops URLs from the frontier until one canonicalizes and lies on the
    /// root's domain, and returns that canonical URL for fetching; returns
    /// nothing when the frontier drains, which ends the crawl.
    pub fn next_url(&mut self) -> (r: Option<String>)
        ensures
            opt_str_view(r) == spec_next(
                old(self)@.queue,
                old(self)@.scheme,
                old(self)@.domain,
            ).0,
            final(self)@ == (EngineView {
                queue: spec_next(old(self)@.queue, old(self)@.scheme, old(self)@.domain).1,
                ..old(self)@
            }),
    {
        loop
            invariant
                self@.root == old(self)@.root,
                self@.scheme == old(self)@.scheme,
                self@.domain == old(self)@.domain,
                self@.disallow == old(self)@.disallow,
                self@.adjust == old(self)@.adjust,
                self@.delay == old(self)@.delay,
                self@.visited == old(self)@.visited,
                self@.scores == old(self)@.scores,
                spec_next(old(self)@.queue, old(self)@.scheme, old(self)@.domain) == spec_next(
                    self@.queue,
                    old(self)@.scheme,
                    old(self)@.domain,
                ),
            decreases self@.queue.len(),
        {
            let popped = self.frontier.pop();
            match popped {
                None => {
                    proof {
                        assert(final(self)@ =~= (EngineView {
                            queue: spec_next(
                                old(self)@.queue,
                                old(self)@.scheme,
                                old(self)@.domain,
                            ).1,
                            ..old(self)@
                        }));
                    }
                    return None;
                },
                Some(u) => {
                    match normalize(u.as_str(), self.scheme.as_str()) {
                        Some(n) => {
                            let ndom = url_domain(n.as_str());
                            if opt_string_eq(&ndom, &self.domain) {
                                proof {
                                    assert(final(self)@ =~= (EngineView {
                                        queue: spec_next(
                                            old(self)@.queue,
                                            old(self)@.scheme,
                                            old(self)@.domain,
                                        ).1,
                                        ..old(self)@
                                    }));
                                }
                                return Some(n);
                            }
                        },
                        None => {},
                    }
                },
            }
        }
    }

    /// Digests the outcome of fetching `url`: the URL's score is recorded
    /// now if it never was — an HTTP error, a non-HTML page or a transport
    /// failure still keeps its entry — and only a successful HTML response
    /// has its links resolved, filtered and pushed onto the frontier.
    pub fn handle_event(&mut self, url: &str, ev: &FetchEvent)
        ensures
            final(self)@.scores == spec_record(
                old(self)@.scores,
                url@,
                spec_score64(url@, old(self)@.adjust),
            ),
            spec_explorable(*ev) ==> final(self)@.fv() == spec_push_links(
                old(self)@.fv(),
                links_of(spec_event_body(*ev)),
                old(self)@.root,
                old(self)@.disallow,
            ),
            !spec_explorable(*ev) ==> final(self)@.queue == old(self)@.queue && final(self)@.visited
                == old(self)@.visited,
            final(self)@.root == old(self)@.root && final(self)@.scheme == old(self)@.scheme
                && final(self)@.domain == old(self)@.domain && final(self)@.disallow == old(self)@.disallow && final(self)@.adjust == old(self)@.adjust && final(self)@.delay == old(self)@.delay,
            (*ev matches FetchEvent::Response { status, .. } && status != 200) ==> final(self)@.queue == old(self)@.queue && final(self)@.visited == old(self)@.visited,
            (*ev matches FetchEvent::Response { status, content_type, .. } && spec_classify(
                status,
                opt_str_view(content_type),
            ) is NotHtml) ==> final(self)@.queue == old(self)@.queue && final(self)@.visited == old(self)@.visited,
            *ev is TransportFailed ==> final(self)@.queue == old(self)@.queue && final(self)@.visited == old(self)@.visited,
    {
        let s = self.adjust.score_milli(url);
        proof {
            assert(s == spec_score64(url@, old(self)@.adjust));
        }
        self.scores.record(url.to_owned(), s);
        match ev {
            FetchEvent::Response { status, content_type, body } => {
                let cls = classify(*status, content_type);
                match (cls, body) {
                    (FetchClass::Html, Some(b)) => {
                        let links = extract_links(b.as_str());
                        let ghost lv = links.deep_view();
                        proof {
                            assert(lv == links_of(spec_event_body(*ev)));
                            assert(lv.take(0) =~= Seq::<Seq<char>>::empty());
                        }
                        let mut i: usize = 0;
                        while i < links.len()
                            invariant
                                0 <= i <= links.len(),
                                lv == links.deep_view(),
                                self@.root == old(self)@.root,
                                self@.scheme == old(self)@.scheme,
                                self@.domain == old(self)@.domain,
                                self@.disallow == old(self)@.disallow,
                                self@.adjust == old(self)@.adjust,
                                self@.delay == old(self)@.delay,
                                self@.scores == spec_record(
                                    old(self)@.scores,
                                    url@,
                                    spec_score64(url@, old(self)@.adjust),
                                ),
                                self@.fv() == spec_push_links(
                                    old(self)@.fv(),
                                    lv.take(i as int),
                                    old(self)@.root,
                                    old(self)@.disallow,
                                ),
                            decreases links.len() - i,
                        {
                            proof {
                                assert(lv.take(i + 1).drop_last() =~= lv.take(i as int));
                                assert(lv.take(i + 1).last() == lv[i as int]);
                                assert(lv[i as int] == links@[i as int]@);
                            }
                            let link = &links[i];
                            let in_scope = (str_starts_with(link.as_str(), "/") && !str_eq(
                                link.as_str(),
                                "/",
                            )) || str_starts_with(link.as_str(), self.root.as_str());
                            if in_scope {
                                match join_url(self.root.as_str(), link.as_str()) {
                                    Some(j) => {
                                        if !self.disallow.matches_any(j.as_str()) {
                                            match norm_plain(j.as_str()) {
                                                Some(n) => {
                                                    self.frontier.push(n);
                                                },
                                                None => {},
                                            }
                                        }
                                    },
                                    None => {},
                                }
                            }
                            i += 1;
                        }
                        proof {
                            assert(lv.take(links@.len() as int) =~= lv);
                        }
                    },
                    _ => {},
                }
            },
            FetchEvent::TransportFailed => {},
        }
    }

    /// The configured inter-request delay in milliseconds; the driver
    /// waits this long before each fetch.
    pub fn delay(&self) -> (d: u64)
        ensures
            d == self@.delay,
    {
        self.delay
    }

    /// The canonical root URL.
    pub fn root(&self) -> (r: &String)
        ensures
            r@ == self@.root,
    {
        &self.root
    }

    /// How many URLs await a visit.
    pub fn queue_len(&self) -> (n: usize)
        ensures
            n == self@.queue.len(),
    {
        self.frontier.queue_len()
    }

    /// How many distinct URLs have been discovered.
    pub fn discovered(&self) -> (n: usize)
        ensures
            n == self@.visited.len(),
    {
        self.frontier.discovered()
    }

    /// Whether a URL was ever enqueued.
    pub fn seen(&self, url: &str) -> (r: bool)
        ensures
            r == self@.visited.contains(url@),
    {
        self.frontier.seen(url)
    }

    /// The score recorded for a URL, if any.
    pub fn score_of(&self, url: &str) -> (r: Option<i64>)
        ensures
            r == spec_lookup(self@.scores, url@),
    {
        self.scores.get(url)
    }

    /// How many URLs have been scored.
    pub fn scored(&self) -> (n: usize)
        ensures
            n == self@.scores.len(),
    {
        self.scores.len()
    }

    /// The score map's entries, in insertion order, for serialization.
    pub fn results(&self) -> (r: &Vec<(String, i64)>)
        ensures
            r.deep_view() == self@.scores,
    {
        self.scores.entries()
    }
}

/// A URL in the frontier queue after a page's links are pushed was either
/// queued before, or arose from one of the page's links through
/// resolution, the disallow filter and canonicalization.
pub proof fn lemma_enqueued_only_accepted(
    f: FrontierView,
    links: Seq<Seq<char>>,
    root: Seq<char>,
    disallow: Seq<Seq<char>>,
    u: Seq<char>,
)
    ensures
        spec_push_links(f, links, root, disallow).queue.contains(u) ==> f.queue.contains(u) || (
        exists|i: int| 0 <= i < links.len() && spec_accept(#[trigger] links[i], root, disallow)
            == Some(u)),
    decreases links.len(),
{
    if links.len() > 0 && spec_push_links(f, links, root, disallow).queue.contains(u) {
        let g = spec_push_links(f, links.drop_last(), root, disallow);
        lemma_enqueued_only_accepted(f, links.drop_last(), root, disallow, u);
        assert(forall|i: int|
            0 <= i < links.drop_last().len() ==> links.drop_last()[i] == #[trigger] links[i]);
        match spec_accept(links.last(), root, disallow) {
            Some(n) => {
                if !g.visited.contains(n) {
                    lemma_seq_contains_after_push(g.queue, n, u);
                    if n == u {
                        assert(links[links.len() - 1] == links.last());
                    }
                }
            },
            None => {},
        }
    }
}

/// A link whose resolved URL matches a disallow pattern is never accepted,
/// so it never enters the frontier — however many anchors carry it.
pub proof fn lemma_disallowed_rejected(link: Seq<char>, root: Seq<char>, disallow: Seq<Seq<char>>)
    ensures
        (join_of(root, link) matches Some(j) && spec_match_any(disallow, j)) ==> spec_accept(
            link,
            root,
            disallow,
        ) is None,
{
}

/// Every URL in the score map keeps a priority at or above the floor of
/// 0.1, and — under adjustment rules that only lower scores — at or below
/// 1.0: digesting one more event preserves both bounds.
pub proof fn lemma_recorded_scores_in_range(
    scores: Seq<(Seq<char>, i64)>,
    u: Seq<char>,
    adjust: Seq<(Seq<char>, i64)>,
)
    ensures
        crate::scores::spec_all_scores_in(scores, 100, i64::MAX as int)
            ==> crate::scores::spec_all_scores_in(
            spec_record(scores, u, spec_score64(u, adjust)),
            100,
            i64::MAX as int,
        ),
        crate::scores::spec_all_scores_in(scores, 100, 1000) && (forall|i: int|
            0 <= i < adjust.len() ==> (#[trigger] adjust[i]).1 <= 0)
            ==> crate::scores::spec_all_scores_in(
            spec_record(scores, u, spec_score64(u, adjust)),
            100,
            1000,
        ),
{
    crate::score::lemma_score_in_range(u, adjust);
    if crate::scores::spec_all_scores_in(scores, 100, i64::MAX as int) {
        crate::scores::lemma_record_preserves_range(
            scores,
            u,
            spec_score64(u, adjust),
            100,
            i64::MAX as int,
        );
    }
    if crate::scores::spec_all_scores_in(scores, 100, 1000) && (forall|i: int|
        0 <= i < adjust.len() ==> (#[trigger] adjust[i]).1 <= 0) {
        crate::scores::lemma_record_preserves_range(scores, u, spec_score64(u, adjust), 100, 1000);
    }
}

} // verus!
