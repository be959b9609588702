//! Disallow rules: configured regular-expression patterns that exclude a
//! discovered link from the frontier, matched against the resolved URL.
//!
//! Pattern compilation and matching are delegated to the `regex` crate;
//! whether a pattern compiles (`regex_ok`) and whether it matches a text
//! (`regex_match`) are deterministic functions of the strings alone and are
//! named as such.

use vstd::prelude::*;

verus! {

/// Whether `pattern` is a valid regular expression, as the `regex` crate
/// defines validity.
pub uninterp spec fn regex_ok(pattern: Seq<char>) -> bool;

/// Whether the regular expression `pattern` matches anywhere in `text`;
/// meaningful only when `regex_ok(pattern)` holds.
pub uninterp spec fn regex_match(pattern: Seq<char>, text: Seq<char>) -> bool;

/// Relies on `regex::Regex::new`: compilation succeeds exactly when the
/// pattern is valid regular-expression syntax, a property of the pattern
/// string alone.
#[verifier::external_body]
pub(crate) fn regex_is_valid(pattern: &str) -> (r: bool)
    ensures
        r == regex_ok(pattern@),
{
    regex::Regex::new(pattern).is_ok()
}

/// Relies on `regex::Regex::new` and `regex::Regex::is_match`: for a valid
/// pattern, `is_match` reports whether the pattern matches anywhere in the
/// text, a function of the two strings alone; an invalid pattern yields
/// `None`.
#[verifier::external_body]
pub(crate) fn regex_try_match(pattern: &str, text: &str) -> (r: Option<bool>)
    ensures
        r is Some <==> regex_ok(pattern@),
        r matches Some(m) ==> m == regex_match(pattern@, text@),
{
    match regex::Regex::new(pattern) {
        Ok(re) => Some(re.is_match(text)),
        Err(_) => None,
    }
}

/// A configuration file could not be turned into crawl rules.
#[derive(Clone, Copy, PartialEq, Eq, Structural, Debug)]
pub enum ConfigError {
    /// A rule pattern is not a valid regular expression.
    InvalidPattern,
    /// A priority delta lies outside the representable milli-unit range.
    InvalidDelta,
}

/// Whether any pattern of `patterns` is valid and matches `text`.
pub open spec fn spec_match_any(patterns: Seq<Seq<char>>, text: Seq<char>) -> bool {
    exists|i: int|
        0 <= i < patterns.len() && regex_ok(#[trigger] patterns[i]) && regex_match(
            patterns[i],
            text,
        )
}

/// The set of patterns that exclude a resolved URL from the frontier.
pub struct DisallowRules {
    patterns: Vec<String>,
}

impl View for DisallowRules {
    type V = Seq<Seq<char>>;

    closed spec fn view(&self) -> Seq<Seq<char>> {
        self.patterns.deep_view()
    }
}

impl DisallowRules {
    /// Builds the rule set, validating every pattern up front: an invalid
    /// pattern surfaces as a configuration error rather than being ignored
    /// at match time.
    pub fn new(patterns: Vec<String>) -> (r: Result<DisallowRules, ConfigError>)
        ensures
            r matches Ok(d) ==> d@ == patterns.deep_view() && (forall|i: int|
                0 <= i < patterns.deep_view().len() ==> regex_ok(#[trigger] patterns.deep_view()[i])),
            r is Err <==> exists|i: int|
                0 <= i < patterns.deep_view().len() && !regex_ok(#[trigger] patterns.deep_view()[i]),
            r matches Err(e) ==> e == ConfigError::InvalidPattern,
    {
        let mut i: usize = 0;
        while i < patterns.len()
            invariant
                0 <= i <= patterns.len(),
                forall|j: int| 0 <= j < i ==> regex_ok(#[trigger] patterns.deep_view()[j]),
            decreases patterns.len() - i,
        {
            proof {
                assert(patterns.deep_view()[i as int] == patterns@[i as int]@);
            }
            if !regex_is_valid(patterns[i].as_str()) {
                return Err(ConfigError::InvalidPattern);
            }
            i += 1;
        }
        Ok(DisallowRules { patterns })
    }

    /// How many patterns the rule set holds.
    pub fn len(&self) -> (n: usize)
        ensures
            n == self@.len(),
    {
        self.patterns.len()
    }

    /// Whether any configured pattern matches `text`. A pattern that does
    /// not compile matches nothing.
    pub fn matches_any(&self, text: &str) -> (r: bool)
        ensures
            r == spec_match_any(self@, text@),
    {
        let mut i: usize = 0;
        while i < self.patterns.len()
            invariant
                0 <= i <= self.patterns.len(),
                self@ == self.patterns.deep_view(),
                forall|j: int|
                    0 <= j < i ==> !(regex_ok(#[trigger] self.patterns.deep_view()[j])
                        && regex_match(self.patterns.deep_view()[j], text@)),
            decreases self.patterns.len() - i,
        {
            proof {
                assert(self.patterns.deep_view()[i as int] == self.patterns@[i as int]@);
            }
            match regex_try_match(self.patterns[i].as_str(), text) {
                Some(true) => {
                    return true;
                },
                _ => {},
            }
            i += 1;
        }
        false
    }
}

} // verus!
