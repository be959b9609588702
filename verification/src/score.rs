//! Priority scoring: each URL's importance starts at 1.0 and drops by 0.1
//! per non-empty path segment and per query parameter; configured
//! pattern/delta rules then adjust it, and the result is floored at 0.1.
//!
//! Scores are integer milli-units: `1000` stands for the priority `1.0`.

use crate::rules::spec_match_any;
use crate::rules::ConfigError;
use crate::rules::regex_is_valid;
use crate::rules::regex_match;
use crate::rules::regex_ok;
use crate::rules::regex_try_match;
use crate::urlops::path_of;
use crate::urlops::query_count_of;
use crate::urlops::url_path;
use crate::urlops::url_query_count;
use vstd::prelude::*;

verus! {

/// Deltas lie strictly inside the open interval of one million milli-units.
pub const DELTA_LIMIT: i64 = 1000000;

/// How many non-empty `/`-separated segments the path `p` holds: the root
/// path `/` has none, `/a` and `/a/` have one, `/a/b` has two.
pub open spec fn nseg(p: Seq<char>) -> int
    decreases p.len(),
{
    if p.len() == 0 {
        0
    } else {
        nseg(p.drop_last()) + if p.last() != '/' && (p.len() == 1 || p[p.len() - 2] == '/') {
            1int
        } else {
            0int
        }
    }
}

pub proof fn lemma_nseg_nonneg(p: Seq<char>)
    ensures
        0 <= nseg(p) <= p.len(),
    decreases p.len(),
{
    if p.len() > 0 {
        lemma_nseg_nonneg(p.drop_last());
    }
}

/// Counts the non-empty `/`-separated segments of a path.
pub fn count_segments(path: &str) -> (n: usize)
    ensures
        n == nseg(path@),
{
    let len: usize = path.unicode_len();
    let mut n: usize = 0;
    let mut i: usize = 0;
    while i < len
        invariant
            0 <= i <= len,
            len == path@.len(),
            n == nseg(path@.take(i as int)),
            n <= i,
        decreases len - i,
    {
        let c = path.get_char(i);
        let start = if i == 0 {
            true
        } else {
            path.get_char(i - 1) == '/'
        };
        proof {
            lemma_nseg_nonneg(path@.take(i as int));
            assert(path@.take(i + 1).drop_last() =~= path@.take(i as int));
            assert(path@.take(i + 1).last() == path@[i as int]);
            if i > 0 {
                assert(path@.take(i + 1)[i - 1] == path@[i - 1]);
            }
        }
        if c != '/' && start {
            n += 1;
        }
        i += 1;
    }
    proof {
        assert(path@.take(len as int) =~= path@);
    }
    n
}

/// The base score of a URL in milli-units, before adjustments and
/// clamping: 1000 less 100 per non-empty path segment and per query pair.
pub open spec fn base_milli(u: Seq<char>) -> int {
    let segs = match path_of(u) {
        Some(p) => nseg(p),
        None => 0,
    };
    let q = match query_count_of(u) {
        Some(qc) => qc as int,
        None => 0,
    };
    1000 - 100 * (segs + q)
}

/// Sum of the deltas of all rules whose pattern matches `u`.
pub open spec fn adjust_sum(rules: Seq<(Seq<char>, i64)>, u: Seq<char>) -> int
    decreases rules.len(),
{
    if rules.len() == 0 {
        0
    } else {
        adjust_sum(rules.drop_last(), u) + if regex_ok(rules.last().0) && regex_match(
            rules.last().0,
            u,
        ) {
            rules.last().1 as int
        } else {
            0int
        }
    }
}

/// The final score: floored at 100 milli-units, and saturated at the
/// largest representable value (which no realistic configuration reaches).
pub open spec fn clamp_milli(x: int) -> int {
    if x < 100 {
        100
    } else if x > i64::MAX {
        i64::MAX as int
    } else {
        x
    }
}

/// What a URL scores under the given adjustment rules.
pub open spec fn spec_score(u: Seq<char>, rules: Seq<(Seq<char>, i64)>) -> int {
    clamp_milli(base_milli(u) + adjust_sum(rules, u))
}

/// The same score as the machine integer it is stored as.
pub open spec fn spec_score64(u: Seq<char>, rules: Seq<(Seq<char>, i64)>) -> i64 {
    spec_score(u, rules) as i64
}

/// The configured pattern/delta adjustment rules, applied at scoring time
/// to every URL the pattern matches.
pub struct PriorityAdjustments {
    rules: Vec<(String, i64)>,
}

impl View for PriorityAdjustments {
    type V = Seq<(Seq<char>, i64)>;

    closed spec fn view(&self) -> Seq<(Seq<char>, i64)> {
        self.rules.deep_view()
    }
}

impl PriorityAdjustments {
    #[verifier::type_invariant]
    spec fn inv(self) -> bool {
        forall|i: int|
            0 <= i < self.rules.deep_view().len() ==> -DELTA_LIMIT < (
            #[trigger] self.rules.deep_view()[i]).1 < DELTA_LIMIT
    }

    /// Builds the adjustment rules, validating every pattern and delta up
    /// front: an invalid pattern or an out-of-range delta surfaces as a
    /// configuration error.
    pub fn new(rules: Vec<(String, i64)>) -> (r: Result<PriorityAdjustments, ConfigError>)
        ensures
            r matches Ok(a) ==> a@ == rules.deep_view(),
            r is Ok <==> forall|i: int|
                0 <= i < rules.deep_view().len() ==> regex_ok(
                    (#[trigger] rules.deep_view()[i]).0,
                ) && -DELTA_LIMIT < rules.deep_view()[i].1 < DELTA_LIMIT,
            r matches Err(e) ==> (e == ConfigError::InvalidPattern && (exists|i: int|
                0 <= i < rules.deep_view().len() && !regex_ok((#[trigger] rules.deep_view()[i]).0))
                || e == ConfigError::InvalidDelta && (exists|i: int|
                0 <= i < rules.deep_view().len() && !(-DELTA_LIMIT < (
                #[trigger] rules.deep_view()[i]).1 < DELTA_LIMIT))),
    {
        let mut i: usize = 0;
        while i < rules.len()
            invariant
                0 <= i <= rules.len(),
                forall|j: int|
                    0 <= j < i ==> regex_ok((#[trigger] rules.deep_view()[j]).0) && -DELTA_LIMIT
                        < rules.deep_view()[j].1 < DELTA_LIMIT,
            decreases rules.len() - i,
        {
            proof {
                assert(rules.deep_view()[i as int].0 == rules@[i as int].0@);
                assert(rules.deep_view()[i as int].1 == rules@[i as int].1);
            }
            if !regex_is_valid(rules[i].0.as_str()) {
                return Err(ConfigError::InvalidPattern);
            }
            let d: i64 = rules[i].1;
            if !(-DELTA_LIMIT < d && d < DELTA_LIMIT) {
                return Err(ConfigError::InvalidDelta);
            }
            i += 1;
        }
        Ok(PriorityAdjustments { rules })
    }

    /// How many adjustment rules are configured.
    pub fn len(&self) -> (n: usize)
        ensures
            n == self@.len(),
    {
        self.rules.len()
    }

    /// Scores a URL in milli-units: the base score plus every matching
    /// rule's delta, floored at 100.
    pub fn score_milli(&self, url: &str) -> (r: i64)
        ensures
            r as int == spec_score(url@, self@),
    {
        proof {
            use_type_invariant(self);
        }
        let segs: usize = match url_path(url) {
            Some(p) => count_segments(p.as_str()),
            None => 0,
        };
        let q: u64 = match url_query_count(url) {
            Some(qc) => qc,
            None => 0,
        };
        let base: i128 = 1000 - 100 * (segs as i128 + q as i128);
        proof {
            assert(base as int == base_milli(url@));
        }
        let mut acc: i128 = base;
        let mut i: usize = 0;
        while i < self.rules.len()
            invariant
                0 <= i <= self.rules.len(),
                self@ == self.rules.deep_view(),
                forall|j: int|
                    0 <= j < self.rules.deep_view().len() ==> -DELTA_LIMIT < (
                    #[trigger] self.rules.deep_view()[j]).1 < DELTA_LIMIT,
                -4000000000000000000000 <= base <= 1000,
                base as int == base_milli(url@),
                acc as int == base_milli(url@) + adjust_sum(self.rules.deep_view().take(i as int), url@),
                base - 1000000 * (i as int) <= acc <= 1000 + 1000000 * (i as int),
            decreases self.rules.len() - i,
        {
            proof {
                assert(self.rules.deep_view()[i as int].0 == self.rules@[i as int].0@);
                assert(self.rules.deep_view()[i as int].1 == self.rules@[i as int].1);
                assert(self.rules.deep_view().take(i + 1).drop_last() =~= self.rules.deep_view().take(i as int));
                assert(self.rules.deep_view().take(i + 1).last() == self.rules.deep_view()[i as int]);
            }
            match regex_try_match(self.rules[i].0.as_str(), url) {
                Some(true) => {
                    acc = acc + self.rules[i].1 as i128;
                },
                _ => {},
            }
            i += 1;
        }
        proof {
            assert(self.rules.deep_view().take(self.rules.deep_view().len() as int)
                =~= self.rules.deep_view());
        }
        if acc < 100 {
            100
        } else if acc > i64::MAX as i128 {
            i64::MAX
        } else {
            acc as i64
        }
    }
}

/// Adjustments that only lower scores keep their sum non-positive.
pub proof fn lemma_adjust_sum_nonpos(rules: Seq<(Seq<char>, i64)>, u: Seq<char>)
    requires
        forall|i: int| 0 <= i < rules.len() ==> (#[trigger] rules[i]).1 <= 0,
    ensures
        adjust_sum(rules, u) <= 0,
    decreases rules.len(),
{
    if rules.len() > 0 {
        assert(forall|i: int|
            0 <= i < rules.drop_last().len() ==> rules.drop_last()[i] == #[trigger] rules[i]);
        lemma_adjust_sum_nonpos(rules.drop_last(), u);
    }
}

/// Every score lies at or above the floor of 0.1; under a configuration
/// whose deltas never raise a score, it also stays at or below 1.0.
pub proof fn lemma_score_in_range(u: Seq<char>, rules: Seq<(Seq<char>, i64)>)
    ensures
        100 <= spec_score(u, rules),
        (forall|i: int| 0 <= i < rules.len() ==> (#[trigger] rules[i]).1 <= 0) ==> spec_score(
            u,
            rules,
        ) <= 1000,
{
    if forall|i: int| 0 <= i < rules.len() ==> (#[trigger] rules[i]).1 <= 0 {
        lemma_adjust_sum_nonpos(rules, u);
        assert(base_milli(u) <= 1000) by {
            match path_of(u) {
                Some(p) => {
                    lemma_nseg_nonneg(p);
                },
                None => {},
            }
        }
    }
}

} // verus!
