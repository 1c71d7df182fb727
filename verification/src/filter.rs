//! Choosing measurements by patterns on their commit and test.

use crate::data::samples;
use crate::data::Measurement;
use crate::data::Sample;
use crate::pattern::regex_compiles;
use crate::pattern::regex_finds;
use crate::pattern::regex_is_match;
use crate::text::chars_of;
use crate::text::string_of;
use vstd::prelude::*;

verus! {

/// One clause of a selection: a pattern, to be found or, where `inverted`
/// is set, not to be found.
#[derive(Debug, PartialEq, Eq)]
pub struct Filter {
    pub inverted: bool,
    pub pattern: String,
}

impl View for Filter {
    type V = (bool, Seq<char>);

    open spec fn view(&self) -> (bool, Seq<char>) {
        (self.inverted, self.pattern@)
    }
}

/// The views of a sequence of filters.
pub open spec fn clauses(filters: Seq<Filter>) -> Seq<(bool, Seq<char>)> {
    filters.map_values(|f: Filter| f@)
}

/// The clause that a filter text states: a leading `!` inverts the pattern
/// that follows it.
pub open spec fn clause_of(text: Seq<char>) -> (bool, Seq<char>) {
    if text.len() > 0 && text[0] == '!' {
        (true, text.skip(1))
    } else {
        (false, text)
    }
}

/// Whether `pattern` is a regular expression that matches somewhere in
/// `text`.
pub open spec fn found_in(pattern: Seq<char>, text: Seq<char>) -> bool {
    regex_compiles(pattern) && regex_finds(pattern, text)
}

/// Whether the pattern of a clause matches the commit or the test of `m`.
pub open spec fn names_match(pattern: Seq<char>, m: Sample) -> bool {
    found_in(pattern, m.commit) || found_in(pattern, m.test)
}

/// Whether `m` meets the clause: a plain clause asks for a match, an
/// inverted one for none.
pub open spec fn clause_holds(clause: (bool, Seq<char>), m: Sample) -> bool {
    clause.0 != names_match(clause.1, m)
}

/// Whether `m` is selected: it meets at least one of the clauses. Without
/// clauses everything is selected.
pub open spec fn passes(filters: Seq<(bool, Seq<char>)>, m: Sample) -> bool {
    filters.len() == 0 || exists|i: int|
        0 <= i < filters.len() && clause_holds(#[trigger] filters[i], m)
}

/// A filter text whose pattern is no regular expression.
#[derive(Debug, PartialEq, Eq)]
pub struct InvalidFilter {
    /// The filter as it was given.
    pub filter: String,
}

/// Reads the clause that a filter text states.
pub fn parse_filter(text: &str) -> (f: Filter)
    ensures
        f@ == clause_of(text@),
{
    let chars = chars_of(text);
    if chars.len() > 0 && chars[0] == '!' {
        let pattern = string_of(&chars, 1, chars.len());
        proof {
            assert(chars@.subrange(1, chars@.len() as int) =~= text@.skip(1));
        }
        Filter { inverted: true, pattern }
    } else {
        Filter { inverted: false, pattern: text.to_owned() }
    }
}

/// Reads the clauses that the filter texts state, in order. The first text
/// whose pattern is no regular expression fails them all.
pub fn parse_filters(texts: &[String]) -> (r: Result<Vec<Filter>, InvalidFilter>)
    ensures
        match r {
            Ok(filters) => {
                &&& filters@.len() == texts@.len()
                &&& forall|i: int|
                    0 <= i < texts@.len() ==> (#[trigger] filters@[i])@ == clause_of(texts@[i]@)
                        && regex_compiles(filters@[i].pattern@)
            },
            Err(e) => exists|i: int|
                {
                    &&& 0 <= i < texts@.len()
                    &&& e.filter@ == (#[trigger] texts@[i])@
                    &&& !regex_compiles(clause_of(texts@[i]@).1)
                    &&& forall|j: int|
                        0 <= j < i ==> regex_compiles(clause_of((#[trigger] texts@[j])@).1)
                },
        },
{
    let mut filters: Vec<Filter> = Vec::new();
    let mut i: usize = 0;
    while i < texts.len()
        invariant
            0 <= i <= texts.len(),
            filters@.len() == i,
            forall|j: int|
                0 <= j < i ==> (#[trigger] filters@[j])@ == clause_of(texts@[j]@) && regex_compiles(
                    filters@[j].pattern@,
                ),
            forall|j: int| 0 <= j < i ==> regex_compiles(clause_of((#[trigger] texts@[j])@).1),
        decreases texts.len() - i,
    {
        let filter = parse_filter(texts[i].as_str());
        // A search of the empty text tells whether the pattern compiles.
        if regex_is_match(filter.pattern.as_str(), "").is_none() {
            return Err(InvalidFilter { filter: texts[i].clone() });
        }
        filters.push(filter);
        i += 1;
    }
    Ok(filters)
}

fn finds(pattern: &str, text: &str) -> (r: bool)
    ensures
        r == found_in(pattern@, text@),
{
    match regex_is_match(pattern, text) {
        Some(found) => found,
        None => false,
    }
}

/// Whether `m` is selected by the filters.
pub fn passes_filters(filters: &[Filter], m: &Measurement) -> (r: bool)
    ensures
        r == passes(clauses(filters@), m@),
{
    if filters.len() == 0 {
        return true;
    }
    let ghost all = clauses(filters@);
    let mut i: usize = 0;
    while i < filters.len()
        invariant
            0 <= i <= filters.len(),
            all == clauses(filters@),
            forall|j: int| 0 <= j < i ==> !clause_holds(#[trigger] all[j], m@),
        decreases filters.len() - i,
    {
        let pattern = filters[i].pattern.as_str();
        let matched = finds(pattern, m.commit.as_str()) || finds(pattern, m.test.as_str());
        proof {
            assert(all[i as int] == filters@[i as int]@);
        }
        if filters[i].inverted != matched {
            return true;
        }
        i += 1;
    }
    false
}

/// The measurements that the filters select, in their order.
pub open spec fn selected(filters: Seq<(bool, Seq<char>)>, ms: Seq<Sample>) -> Seq<Sample> {
    ms.filter(|m: Sample| passes(filters, m))
}

/// Keeps the measurements that the filters select.
pub fn select(filters: &[Filter], measurements: Vec<Measurement>) -> (kept: Vec<Measurement>)
    ensures
        samples(kept@) == selected(clauses(filters@), samples(measurements@)),
{
    let ghost ms = samples(measurements@);
    let ghost all = clauses(filters@);
    let mut kept: Vec<Measurement> = Vec::new();
    let mut i: usize = 0;
    proof {
        reveal(Seq::filter);
        assert(ms.take(0) =~= Seq::empty());
        assert(samples(kept@) =~= Seq::empty());
    }
    while i < measurements.len()
        invariant
            0 <= i <= measurements.len(),
            ms == samples(measurements@),
            all == clauses(filters@),
            samples(kept@) == selected(all, ms.take(i as int)),
        decreases measurements.len() - i,
    {
        proof {
            reveal(Seq::filter);
            assert(ms.take(i + 1).drop_last() =~= ms.take(i as int));
            assert(ms.take(i + 1).last() == measurements@[i as int]@);
        }
        if passes_filters(filters, &measurements[i]) {
            let m = measurements[i].clone();
            proof {
                assert(samples(kept@.push(m)) =~= samples(kept@).push(m@));
            }
            kept.push(m);
        }
        i += 1;
    }
    proof {
        assert(ms.take(i as int) =~= ms);
    }
    kept
}

/// A single inverted filter drops every measurement whose commit or test
/// matches its pattern, and keeps every other.
pub proof fn law_inverted_filter_excludes(pattern: Seq<char>, m: Sample)
    ensures
        passes(seq![(true, pattern)], m) == !names_match(pattern, m),
{
    let filters = seq![(true, pattern)];
    assert(filters[0] == (true, pattern));
}

/// A single plain filter keeps exactly the measurements whose commit or
/// test matches its pattern.
pub proof fn law_plain_filter_includes(pattern: Seq<char>, m: Sample)
    ensures
        passes(seq![(false, pattern)], m) == names_match(pattern, m),
{
    let filters = seq![(false, pattern)];
    assert(filters[0] == (false, pattern));
}

/// Several clauses select what any one of them selects: no clause takes
/// precedence over another.
pub proof fn law_filters_are_disjunction(
    first: Seq<(bool, Seq<char>)>,
    second: Seq<(bool, Seq<char>)>,
    m: Sample,
)
    requires
        first.len() > 0,
        second.len() > 0,
    ensures
        passes(first + second, m) == (passes(first, m) || passes(second, m)),
{
    let both = first + second;
    if passes(first, m) {
        let i = choose|i: int| 0 <= i < first.len() && clause_holds(#[trigger] first[i], m);
        assert(both[i] == first[i]);
    }
    if passes(second, m) {
        let i = choose|i: int| 0 <= i < second.len() && clause_holds(#[trigger] second[i], m);
        assert(both[first.len() + i] == second[i]);
    }
    if passes(both, m) {
        let i = choose|i: int| 0 <= i < both.len() && clause_holds(#[trigger] both[i], m);
        if i < first.len() {
            assert(first[i] == both[i]);
        } else {
            assert(second[i - first.len()] == both[i]);
        }
    }
}

} // verus!
