//! Interpretation of the three line-oriented configuration files: the root
//! URL and inter-request delay, the disallow patterns, and the priority
//! adjustments. Lines beginning with `#` are comments throughout.
//!
//! Reading the files is the driver's business; these functions take the
//! lines as given.

use crate::text::is_comment;
use crate::text::parse_delta_milli;
use crate::text::parse_u64;
use crate::text::spec_is_comment;
use crate::text::spec_parse_delta;
use crate::text::spec_parse_u64;
use crate::urlops::opt_str_view;
use vstd::prelude::*;

verus! {

/// The non-comment lines, in order.
pub open spec fn spec_data_lines(lines: Seq<Seq<char>>) -> Seq<Seq<char>>
    decreases lines.len(),
{
    if lines.len() == 0 {
        Seq::empty()
    } else {
        let rest = spec_data_lines(lines.drop_last());
        if spec_is_comment(lines.last()) {
            rest
        } else {
            rest.push(lines.last())
        }
    }
}

/// Collects the non-comment lines.
fn collect_data_lines(lines: &Vec<String>) -> (r: Vec<String>)
    ensures
        r.deep_view() == spec_data_lines(lines.deep_view()),
{
    let mut out: Vec<String> = Vec::new();
    proof {
        assert(out.deep_view() =~= spec_data_lines(lines.deep_view().take(0)));
    }
    let mut i: usize = 0;
    while i < lines.len()
        invariant
            0 <= i <= lines.len(),
            out.deep_view() == spec_data_lines(lines.deep_view().take(i as int)),
        decreases lines.len() - i,
    {
        proof {
            assert(lines.deep_view().take(i + 1).drop_last() =~= lines.deep_view().take(i as int));
            assert(lines.deep_view().take(i + 1).last() == lines.deep_view()[i as int]);
            assert(lines.deep_view()[i as int] == lines@[i as int]@);
        }
        if !is_comment(lines[i].as_str()) {
            let ghost before = out.deep_view();
            out.push(lines[i].clone());
            proof {
                assert(out.deep_view() =~= before.push(lines@[i as int]@));
            }
        }
        i += 1;
    }
    proof {
        assert(lines.deep_view().take(lines.deep_view().len() as int) =~= lines.deep_view());
    }
    out
}

/// The crawl's root URL: the first non-comment line, if any.
pub open spec fn spec_root_url(lines: Seq<Seq<char>>) -> Option<Seq<char>> {
    let data = spec_data_lines(lines);
    if data.len() > 0 {
        Some(data[0])
    } else {
        None
    }
}

/// The first line of `ls` that parses as a decimal number, or the default
/// inter-request delay of 25 milliseconds.
pub open spec fn spec_first_delay(ls: Seq<Seq<char>>) -> u64
    decreases ls.len(),
{
    if ls.len() == 0 {
        25
    } else {
        match spec_parse_u64(ls[0]) {
            Some(d) => d,
            None => spec_first_delay(ls.drop_first()),
        }
    }
}

/// The configured inter-request delay: the first non-comment line after
/// the root URL that parses as a decimal number of milliseconds, or 25.
pub open spec fn spec_delay(lines: Seq<Seq<char>>) -> u64 {
    let data = spec_data_lines(lines);
    if data.len() == 0 {
        25
    } else {
        spec_first_delay(data.drop_first())
    }
}

/// Reads the root-URL configuration: the first non-comment line is the
/// root URL, and the next non-comment line that parses as a number is the
/// inter-request delay in milliseconds (by default 25). A malformed delay
/// line is skipped, not fatal.
pub fn parse_root_config(lines: &Vec<String>) -> (r: (Option<String>, u64))
    ensures
        opt_str_view(r.0) == spec_root_url(lines.deep_view()),
        r.1 == spec_delay(lines.deep_view()),
{
    let data = collect_data_lines(lines);
    if data.len() == 0 {
        return (None, 25);
    }
    let url = data[0].clone();
    proof {
        assert(url@ == data.deep_view()[0]);
        assert(data.deep_view().skip(1) =~= data.deep_view().drop_first());
    }
    let mut i: usize = 1;
    while i < data.len()
        invariant
            1 <= i <= data.len(),
            data.deep_view().len() == data@.len(),
            data.deep_view() == spec_data_lines(lines.deep_view()),
            data.deep_view().len() > 0,
            url@ == data.deep_view()[0],
            spec_first_delay(data.deep_view().drop_first()) == spec_first_delay(
                data.deep_view().skip(i as int),
            ),
        decreases data.len() - i,
    {
        proof {
            assert(data.deep_view().skip(i as int)[0] == data.deep_view()[i as int]);
            assert(data.deep_view()[i as int] == data@[i as int]@);
            assert(data.deep_view().skip(i as int).drop_first() =~= data.deep_view().skip(i + 1));
        }
        match parse_u64(data[i].as_str()) {
            Some(d) => {
                return (Some(url), d);
            },
            None => {},
        }
        i += 1;
    }
    proof {
        assert(data.deep_view().skip(data@.len() as int) =~= Seq::<Seq<char>>::empty());
    }
    (Some(url), 25)
}

/// The pattern that excludes duplicate print views, always in force.
pub open spec fn spec_print_pattern() -> Seq<char> {
    ".*/.*print=Y"@
}

/// The disallow patterns a configuration file yields: its non-comment
/// lines, plus the built-in print-view pattern.
pub open spec fn spec_disallow_patterns(lines: Seq<Seq<char>>) -> Seq<Seq<char>> {
    spec_data_lines(lines).push(spec_print_pattern())
}

/// Reads the disallow configuration: one pattern per non-comment line; the
/// built-in print-view pattern is always appended.
pub fn parse_disallow_config(lines: &Vec<String>) -> (r: Vec<String>)
    ensures
        r.deep_view() == spec_disallow_patterns(lines.deep_view()),
{
    let mut out = collect_data_lines(lines);
    let ghost before = out.deep_view();
    out.push(String::from_str(".*/.*print=Y"));
    proof {
        assert(out.deep_view() =~= before.push(spec_print_pattern()));
    }
    out
}

/// Index of the first entry keyed by `pat`, or `acc.len()` when none is.
pub open spec fn spec_find_key(acc: Seq<(Seq<char>, i64)>, pat: Seq<char>) -> int
    decreases acc.len(),
{
    if acc.len() == 0 {
        0
    } else if acc[0].0 == pat {
        0
    } else {
        1 + spec_find_key(acc.drop_first(), pat)
    }
}

pub proof fn lemma_find_key(acc: Seq<(Seq<char>, i64)>, pat: Seq<char>)
    ensures
        0 <= spec_find_key(acc, pat) <= acc.len(),
        forall|i: int| 0 <= i < spec_find_key(acc, pat) ==> (#[trigger] acc[i]).0 != pat,
        spec_find_key(acc, pat) < acc.len() ==> acc[spec_find_key(acc, pat)].0 == pat,
    decreases acc.len(),
{
    if acc.len() > 0 && acc[0].0 != pat {
        lemma_find_key(acc.drop_first(), pat);
        assert forall|i: int| 0 <= i < spec_find_key(acc, pat) implies (#[trigger] acc[i]).0 != pat by {
            if i >= 1 {
                assert(acc.drop_first()[i - 1] == acc[i]);
            }
        }
        if spec_find_key(acc, pat) < acc.len() {
            assert(acc.drop_first()[spec_find_key(acc, pat) - 1] == acc[spec_find_key(acc, pat)]);
        }
    }
}

/// What storing a rule does: the first entry with the same pattern is
/// replaced, as a later rule for a pattern overrides an earlier one;
/// otherwise the rule is appended.
pub open spec fn spec_upsert(acc: Seq<(Seq<char>, i64)>, pat: Seq<char>, d: i64) -> Seq<
    (Seq<char>, i64),
> {
    let j = spec_find_key(acc, pat);
    if j < acc.len() {
        acc.update(j, (pat, d))
    } else {
        acc.push((pat, d))
    }
}

/// Stores a rule, replacing the first entry with the same pattern.
fn upsert(acc: &mut Vec<(String, i64)>, pat: String, d: i64)
    ensures
        final(acc).deep_view() == spec_upsert(old(acc).deep_view(), pat@, d),
{
    proof {
        lemma_find_key(acc.deep_view(), pat@);
    }
    let ghost j = spec_find_key(acc.deep_view(), pat@);
    let mut i: usize = 0;
    while i < acc.len()
        invariant
            0 <= i <= acc.len(),
            acc.deep_view().len() == acc@.len(),
            acc.deep_view() == old(acc).deep_view(),
            j == spec_find_key(acc.deep_view(), pat@),
            0 <= j <= acc.deep_view().len(),
            forall|k: int| 0 <= k < j ==> (#[trigger] acc.deep_view()[k]).0 != pat@,
            j < acc.deep_view().len() ==> acc.deep_view()[j].0 == pat@,
            i <= j,
        decreases acc.len() - i,
    {
        proof {
            assert(acc.deep_view()[i as int].0 == acc@[i as int].0@);
        }
        if crate::text::str_eq(acc[i].0.as_str(), pat.as_str()) {
            proof {
                assert(i == j) by {
                    if i < j {
                        assert(acc.deep_view()[i as int].0 != pat@);
                    }
                }
            }
            let ghost before = acc.deep_view();
            acc.remove(i);
            acc.insert(i, (pat, d));
            proof {
                assert(acc.deep_view() =~= spec_upsert(before, pat@, d)) by {
                    assert(forall|k: int|
                        0 <= k < i ==> acc.deep_view()[k] == (#[trigger] before.update(
                            j,
                            (pat@, d),
                        )[k]));
                    assert(acc.deep_view()[i as int] == (pat@, d));
                    assert(forall|k: int|
                        i < k < before.len() ==> acc.deep_view()[k] == (#[trigger] before.update(
                            j,
                            (pat@, d),
                        )[k]));
                }
            }
            return ;
        }
        proof {
            assert(i < j) by {
                if i == j && j < acc.deep_view().len() {
                    assert(acc.deep_view()[j].0 == pat@);
                }
                if j == acc.deep_view().len() {
                }
            }
        }
        i += 1;
    }
    let ghost before = acc.deep_view();
    acc.push((pat, d));
    proof {
        assert(j == before.len());
        assert(acc.deep_view() =~= before.push((pat@, d)));
    }
}

/// The rules a priority-adjustment configuration yields, together with a
/// pending pattern line awaiting its delta: non-comment lines pair up as
/// pattern then delta; a malformed delta drops its pattern, and comment
/// lines in between are ignored.
pub open spec fn spec_prio_state(lines: Seq<Seq<char>>) -> (Seq<(Seq<char>, i64)>, Option<
    Seq<char>,
>)
    decreases lines.len(),
{
    if lines.len() == 0 {
        (Seq::empty(), None)
    } else {
        let (acc, pend) = spec_prio_state(lines.drop_last());
        let l = lines.last();
        if spec_is_comment(l) {
            (acc, pend)
        } else {
            match pend {
                None => (acc, Some(l)),
                Some(pat) => (
                    match spec_parse_delta(l) {
                        Some(d) => spec_upsert(acc, pat, d),
                        None => acc,
                    },
                    None,
                ),
            }
        }
    }
}

/// The priority-adjustment rules a configuration file yields.
pub open spec fn spec_priority_rules(lines: Seq<Seq<char>>) -> Seq<(Seq<char>, i64)> {
    spec_prio_state(lines).0
}

/// Reads the priority-adjustment configuration: non-comment lines pair up,
/// a pattern line followed by a delta line; a malformed delta is silently
/// skipped together with its pattern, and a repeated pattern keeps only
/// its last delta.
pub fn parse_priority_config(lines: &Vec<String>) -> (r: Vec<(String, i64)>)
    ensures
        r.deep_view() == spec_priority_rules(lines.deep_view()),
{
    let mut acc: Vec<(String, i64)> = Vec::new();
    let mut pending: Option<String> = None;
    proof {
        assert(acc.deep_view() =~= spec_prio_state(lines.deep_view().take(0)).0);
    }
    let mut i: usize = 0;
    while i < lines.len()
        invariant
            0 <= i <= lines.len(),
            acc.deep_view() == spec_prio_state(lines.deep_view().take(i as int)).0,
            opt_str_view(pending) == spec_prio_state(lines.deep_view().take(i as int)).1,
        decreases lines.len() - i,
    {
        proof {
            assert(lines.deep_view().take(i + 1).drop_last() =~= lines.deep_view().take(i as int));
            assert(lines.deep_view().take(i + 1).last() == lines.deep_view()[i as int]);
            assert(lines.deep_view()[i as int] == lines@[i as int]@);
        }
        if !is_comment(lines[i].as_str()) {
            let taken = pending.take();
            match taken {
                None => {
                    pending = Some(lines[i].clone());
                },
                Some(pat) => {
                    match parse_delta_milli(lines[i].as_str()) {
                        Some(d) => {
                            upsert(&mut acc, pat, d);
                        },
                        None => {},
                    }
                },
            }
        }
        i += 1;
    }
    proof {
        assert(lines.deep_view().take(lines.deep_view().len() as int) =~= lines.deep_view());
    }
    acc
}

} // verus!
