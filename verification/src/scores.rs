//! The score map: each discovered URL's priority, written at most once, on
//! first encounter; later encounters never alter it.

use vstd::prelude::*;

verus! {

/// The keys of an association list of scores.
pub open spec fn spec_keys(s: Seq<(Seq<char>, i64)>) -> Seq<Seq<char>> {
    s.map_values(|p: (Seq<char>, i64)| p.0)
}

/// What recording a score does: nothing when the URL already has an entry,
/// else the pair is appended.
pub open spec fn spec_record(s: Seq<(Seq<char>, i64)>, u: Seq<char>, v: i64) -> Seq<
    (Seq<char>, i64),
> {
    if spec_keys(s).contains(u) {
        s
    } else {
        s.push((u, v))
    }
}

/// The score stored for `u`, if any: the first entry with that key.
pub open spec fn spec_lookup(s: Seq<(Seq<char>, i64)>, u: Seq<char>) -> Option<i64>
    decreases s.len(),
{
    if s.len() == 0 {
        None
    } else if s[0].0 == u {
        Some(s[0].1)
    } else {
        spec_lookup(s.drop_first(), u)
    }
}

/// Mapping from discovered URL to its priority score in milli-units.
pub struct ScoreMap {
    entries: Vec<(String, i64)>,
}

impl View for ScoreMap {
    type V = Seq<(Seq<char>, i64)>;

    closed spec fn view(&self) -> Seq<(Seq<char>, i64)> {
        self.entries.deep_view()
    }
}

impl ScoreMap {
    /// An empty score map.
    pub fn new() -> (m: ScoreMap)
        ensures
            m@ == Seq::<(Seq<char>, i64)>::empty(),
    {
        let m = ScoreMap { entries: Vec::new() };
        proof {
            assert(m@ =~= Seq::<(Seq<char>, i64)>::empty());
        }
        m
    }

    /// How many URLs have been scored.
    pub fn len(&self) -> (n: usize)
        ensures
            n == self@.len(),
    {
        self.entries.len()
    }

    /// Whether `url` already has an entry.
    pub fn contains(&self, url: &str) -> (r: bool)
        ensures
            r == spec_keys(self@).contains(url@),
    {
        let mut i: usize = 0;
        while i < self.entries.len()
            invariant
                0 <= i <= self.entries.len(),
                forall|j: int| 0 <= j < i ==> (#[trigger] self.entries.deep_view()[j]).0 != url@,
            decreases self.entries.len() - i,
        {
            proof {
                assert(self.entries.deep_view()[i as int].0 == self.entries@[i as int].0@);
            }
            if crate::text::str_eq(self.entries[i].0.as_str(), url) {
                assert(spec_keys(self@).contains(url@)) by {
                    assert(spec_keys(self@)[i as int] == url@);
                }
                return true;
            }
            i += 1;
        }
        assert(!spec_keys(self@).contains(url@)) by {
            assert(forall|j: int|
                0 <= j < spec_keys(self@).len() ==> spec_keys(self@)[j] == (
                #[trigger] self.entries.deep_view()[j]).0);
        }
        false
    }

    /// Records a score for a URL on first encounter; a URL that already
    /// has an entry keeps its original score.
    pub fn record(&mut self, url: String, score: i64)
        ensures
            final(self)@ == spec_record(old(self)@, url@, score),
    {
        if !self.contains(url.as_str()) {
            self.entries.push((url, score));
            proof {
                assert(final(self)@ =~= old(self)@.push((url@, score)));
            }
        }
    }

    /// The score recorded for `url`, if any.
    pub fn get(&self, url: &str) -> (r: Option<i64>)
        ensures
            r == spec_lookup(self@, url@),
    {
        let mut i: usize = 0;
        proof {
            assert(self@.skip(0) =~= self@);
        }
        while i < self.entries.len()
            invariant
                0 <= i <= self.entries.len(),
                spec_lookup(self@, url@) == spec_lookup(self@.skip(i as int), url@),
            decreases self.entries.len() - i,
        {
            proof {
                assert(self.entries.deep_view()[i as int].0 == self.entries@[i as int].0@);
                assert(self.entries.deep_view()[i as int].1 == self.entries@[i as int].1);
                assert(self@.skip(i as int)[0] == self@[i as int]);
                assert(self@.skip(i as int).drop_first() =~= self@.skip(i + 1));
            }
            if crate::text::str_eq(self.entries[i].0.as_str(), url) {
                return Some(self.entries[i].1);
            }
            i += 1;
        }
        proof {
            assert(self@.skip(self@.len() as int) =~= Seq::<(Seq<char>, i64)>::empty());
        }
        None
    }

    /// The recorded entries, in insertion order, for serialization.
    pub fn entries(&self) -> (r: &Vec<(String, i64)>)
        ensures
            r.deep_view() == self@,
    {
        &self.entries
    }
}

/// A URL's entry is written at most once: recording never introduces a
/// duplicate key.
pub proof fn lemma_record_keeps_keys_unique(s: Seq<(Seq<char>, i64)>, u: Seq<char>, v: i64)
    requires
        spec_keys(s).no_duplicates(),
    ensures
        spec_keys(spec_record(s, u, v)).no_duplicates(),
{
    if !spec_keys(s).contains(u) {
        assert(spec_keys(s.push((u, v))) =~= spec_keys(s).push(u));
        assert(forall|i: int|
            0 <= i < spec_keys(s).len() ==> spec_keys(s).push(u)[i] == #[trigger] spec_keys(s)[i]);
        assert(spec_keys(s).push(u)[spec_keys(s).len() as int] == u);
    }
}

/// Whether every recorded score lies in the inclusive milli-unit range.
pub open spec fn spec_all_scores_in(s: Seq<(Seq<char>, i64)>, lo: int, hi: int) -> bool {
    forall|i: int| 0 <= i < s.len() ==> lo <= (#[trigger] s[i]).1 <= hi
}

/// Recording a score inside a range keeps every score in that range.
pub proof fn lemma_record_preserves_range(
    s: Seq<(Seq<char>, i64)>,
    u: Seq<char>,
    v: i64,
    lo: int,
    hi: int,
)
    requires
        spec_all_scores_in(s, lo, hi),
        lo <= v <= hi,
    ensures
        spec_all_scores_in(spec_record(s, u, v), lo, hi),
{
    if !spec_keys(s).contains(u) {
        assert(forall|i: int| 0 <= i < s.len() ==> s.push((u, v))[i] == #[trigger] s[i]);
        assert(s.push((u, v))[s.len() as int] == (u, v));
    }
}

} // verus!
