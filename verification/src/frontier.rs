//! The frontier: a LIFO work queue of discovered, not-yet-visited URLs,
//! paired with the set of URLs already enqueued or visited.
//!
//! A URL enters the visited set at the moment it is enqueued and is never
//! enqueued twice; the queue never holds a URL the visited set lacks.

use vstd::prelude::*;
use vstd::seq_lib::lemma_seq_contains_after_push;

verus! {

/// Mathematical state of a frontier: the pending queue (last element is
/// popped first) and the visited set, both as character sequences.
#[verifier::ext_equal]
pub ghost struct FrontierView {
    pub queue: Seq<Seq<char>>,
    pub visited: Seq<Seq<char>>,
}

/// What one `push` does: nothing when the URL was already seen, else the
/// URL joins both the queue and the visited set.
pub open spec fn spec_push(f: FrontierView, u: Seq<char>) -> FrontierView {
    if f.visited.contains(u) {
        f
    } else {
        FrontierView { queue: f.queue.push(u), visited: f.visited.push(u) }
    }
}

/// What a whole sequence of pushes does, in order.
pub open spec fn spec_push_seq(f: FrontierView, urls: Seq<Seq<char>>) -> FrontierView
    decreases urls.len(),
{
    if urls.len() == 0 {
        f
    } else {
        spec_push(spec_push_seq(f, urls.drop_last()), urls.last())
    }
}

/// The frontier of the crawl.
pub struct Frontier {
    queue: Vec<String>,
    visited: Vec<String>,
}

impl View for Frontier {
    type V = FrontierView;

    closed spec fn view(&self) -> FrontierView {
        FrontierView { queue: self.queue.deep_view(), visited: self.visited.deep_view() }
    }
}

/// Whether `v` holds a string equal to `s`.
fn contains_string(v: &Vec<String>, s: &str) -> (r: bool)
    ensures
        r == v.deep_view().contains(s@),
{
    let mut i: usize = 0;
    while i < v.len()
        invariant
            0 <= i <= v.len(),
            forall|j: int| 0 <= j < i ==> v.deep_view()[j] != s@,
        decreases v.len() - i,
    {
        proof {
            assert(v.deep_view()[i as int] == v@[i as int]@);
        }
        if crate::text::str_eq(v[i].as_str(), s) {
            assert(v.deep_view().contains(s@)) by {
                assert(v.deep_view()[i as int] == s@);
            }
            return true;
        }
        i += 1;
    }
    assert(!v.deep_view().contains(s@)) by {
        assert(forall|j: int| 0 <= j < v.deep_view().len() ==> v.deep_view()[j] != s@);
    }
    false
}

impl Frontier {
    /// An empty frontier: nothing queued, nothing visited.
    pub fn new() -> (f: Frontier)
        ensures
            f@.queue == Seq::<Seq<char>>::empty(),
            f@.visited == Seq::<Seq<char>>::empty(),
    {
        let f = Frontier { queue: Vec::new(), visited: Vec::new() };
        proof {
            assert(f@.queue =~= Seq::<Seq<char>>::empty());
            assert(f@.visited =~= Seq::<Seq<char>>::empty());
        }
        f
    }

    /// Enqueues a URL unless it was already enqueued or visited; a URL is
    /// marked visited at the moment it is enqueued.
    pub fn push(&mut self, url: String)
        ensures
            final(self)@ == spec_push(old(self)@, url@),
    {
        if !contains_string(&self.visited, url.as_str()) {
            self.queue.push(url.clone());
            self.visited.push(url);
            proof {
                assert(final(self)@.queue =~= old(self)@.queue.push(url@));
                assert(final(self)@.visited =~= old(self)@.visited.push(url@));
            }
        }
    }

    /// Removes and returns the most recently enqueued URL; the visited set
    /// keeps it. Returns nothing when the queue is drained, which is the
    /// crawl loop's termination signal.
    pub fn pop(&mut self) -> (r: Option<String>)
        ensures
            old(self)@.queue.len() == 0 ==> r is None && final(self)@ == old(self)@,
            old(self)@.queue.len() > 0 ==> (r matches Some(u) && u@ == old(self)@.queue.last()
                && final(self)@.queue == old(self)@.queue.drop_last() && final(self)@.visited == old(
                self,
            )@.visited),
    {
        let r = self.queue.pop();
        proof {
            if old(self)@.queue.len() == 0 {
                assert(final(self)@ =~= old(self)@);
            } else {
                assert(final(self)@.queue =~= old(self)@.queue.drop_last());
            }
        }
        r
    }

    /// How many URLs await a visit.
    pub fn queue_len(&self) -> (n: usize)
        ensures
            n == self@.queue.len(),
    {
        self.queue.len()
    }

    /// How many distinct URLs have been discovered so far.
    pub fn discovered(&self) -> (n: usize)
        ensures
            n == self@.visited.len(),
    {
        self.visited.len()
    }

    /// Whether a URL was ever enqueued.
    pub fn seen(&self, url: &str) -> (r: bool)
        ensures
            r == self@.visited.contains(url@),
    {
        contains_string(&self.visited, url)
    }
}

/// The frontier's invariant: a URL can be in the visited set without being
/// queued, but never queued without being visited; in particular the
/// visited set is never smaller than the queue.
pub open spec fn spec_frontier_wf(f: FrontierView) -> bool {
    &&& f.queue.len() <= f.visited.len()
    &&& forall|i: int| 0 <= i < f.queue.len() ==> f.visited.contains(#[trigger] f.queue[i])
}

/// Both frontier operations preserve the invariant: a push enters both
/// sides or neither, and a pop leaves the visited set alone.
pub proof fn lemma_frontier_wf_preserved(f: FrontierView, u: Seq<char>)
    requires
        spec_frontier_wf(f),
    ensures
        spec_frontier_wf(spec_push(f, u)),
        f.queue.len() > 0 ==> spec_frontier_wf(
            FrontierView { queue: f.queue.drop_last(), visited: f.visited },
        ),
{
    if !f.visited.contains(u) {
        let g = spec_push(f, u);
        assert forall|i: int| 0 <= i < g.queue.len() implies g.visited.contains(
            #[trigger] g.queue[i],
        ) by {
            lemma_seq_contains_after_push(f.visited, u, g.queue[i]);
            if i < f.queue.len() {
                assert(g.queue[i] == f.queue[i]);
            } else {
                assert(g.queue[i] == u);
            }
        }
    }
    if f.queue.len() > 0 {
        assert(forall|i: int|
            0 <= i < f.queue.drop_last().len() ==> f.queue.drop_last()[i] == #[trigger] f.queue[i]);
    }
}

/// Pushing preserves the frontier's well-formedness: no duplicate in the
/// visited set, and the visited set grows by exactly the new URLs.
pub proof fn lemma_push_seq_visited(f: FrontierView, urls: Seq<Seq<char>>)
    ensures
        spec_push_seq(f, urls).visited.to_set() =~= f.visited.to_set().union(urls.to_set()),
        f.visited.no_duplicates() ==> spec_push_seq(f, urls).visited.no_duplicates(),
    decreases urls.len(),
{
    broadcast use Seq::<_>::lemma_push_to_set_commute;

    if urls.len() == 0 {
        assert(urls.to_set() =~= Set::<Seq<char>>::empty());
    } else {
        lemma_push_seq_visited(f, urls.drop_last());
        let g = spec_push_seq(f, urls.drop_last());
        let u = urls.last();
        assert(urls.drop_last().push(u) =~= urls);
        assert(urls.drop_last().to_set().insert(u) =~= urls.to_set());
        if g.visited.contains(u) {
            assert(g.visited.to_set().contains(u));
            assert(spec_push_seq(f, urls).visited.to_set() =~= f.visited.to_set().union(
                urls.to_set(),
            ));
        } else {
            assert(spec_push(g, u).visited =~= g.visited.push(u));
            if g.visited.no_duplicates() {
                assert(g.visited.push(u).no_duplicates()) by {
                    assert(forall|i: int|
                        0 <= i < g.visited.len() ==> g.visited.push(u)[i] == #[trigger] g.visited[i]);
                }
            }
        }
    }
}

/// For any sequence of pushes into a fresh frontier, the visited set's
/// final size equals the number of distinct URLs pushed.
pub proof fn lemma_push_seq_distinct_count(urls: Seq<Seq<char>>)
    ensures
        spec_push_seq(
            FrontierView { queue: Seq::empty(), visited: Seq::empty() },
            urls,
        ).visited.len() == urls.to_set().len(),
{
    let f0 = FrontierView { queue: Seq::<Seq<char>>::empty(), visited: Seq::<Seq<char>>::empty() };
    lemma_push_seq_visited(f0, urls);
    let v = spec_push_seq(f0, urls).visited;
    assert(v.to_set() =~= urls.to_set()) by {
        assert(f0.visited.to_set() =~= Set::<Seq<char>>::empty());
        assert(f0.visited.to_set().union(urls.to_set()) =~= urls.to_set());
    }
    assert(f0.visited.no_duplicates());
    v.unique_seq_to_set();
}

} // verus!
