//! Finding timing samples in the output of a benchmark run.

use crate::data::samples;
use crate::data::Measurement;
use crate::data::Sample;
use crate::pattern::groups_view;
use crate::pattern::regex_captures;
use crate::pattern::regex_groups;
use crate::text::chars_of;
use crate::text::decimal_u64;
use crate::text::lines_of;
use crate::text::parse_decimal;
use crate::text::split_lines;
use crate::text::strings;
use vstd::prelude::*;

verus! {

/// The lines that report a benchmark's time, such as
/// `test nbody::bench ... bench:  12,459,703 ns/iter (+/- 75,027)`.
/// Group 1 is the benchmark's name, group 2 the time, group 3 the variance.
pub const BENCH_PATTERN: &'static str =
    r"\s*test\s+(\S+)\s*\.\.\.\s*bench:\s*([0-9,]+) ns/iter \(\+/- ([0-9,]+)\)\s*";

/// What one line of output reports: a benchmark's name, its time and the
/// variance of that time.
#[derive(Debug, PartialEq, Eq)]
pub struct Timing {
    pub name: String,
    pub time: u64,
    pub variance: u64,
}

impl View for Timing {
    type V = (Seq<char>, u64, u64);

    open spec fn view(&self) -> (Seq<char>, u64, u64) {
        (self.name@, self.time, self.variance)
    }
}

/// Why a line that matches the pattern gave no timing.
#[derive(Clone, Copy, Debug, PartialEq, Eq, Structural)]
pub enum ExtractError {
    /// The match does not consist of a name, a time and a variance.
    Shape,
    /// The time is no number that fits 64 bits.
    Time,
    /// The variance is no number that fits 64 bits.
    Variance,
}

/// `s` without its thousands separators.
pub open spec fn without_separators(s: Seq<char>) -> Seq<char> {
    s.filter(|c: char| c != ',')
}

/// Removes the thousands separators from a group of digits.
pub fn strip_separators(s: &str) -> (r: String)
    ensures
        r@ == without_separators(s@),
{
    let chars = chars_of(s);
    let mut r = String::new();
    let mut i: usize = 0;
    proof {
        reveal(Seq::filter);
        assert(chars@.take(0) =~= Seq::<char>::empty());
    }
    while i < chars.len()
        invariant
            chars@ == s@,
            0 <= i <= chars.len(),
            r@ == without_separators(chars@.take(i as int)),
        decreases chars.len() - i,
    {
        proof {
            reveal(Seq::filter);
            assert(chars@.take(i + 1).drop_last() =~= chars@.take(i as int));
        }
        if chars[i] != ',' {
            r.push(chars[i]);
        }
        i += 1;
    }
    proof {
        assert(chars@.take(i as int) =~= chars@);
    }
    r
}

/// The number that a group of digits with separators denotes.
pub open spec fn separated_u64(s: Seq<char>) -> Option<u64> {
    decimal_u64(without_separators(s))
}

/// The timing that the groups of a match state. There must be the whole
/// match and three groups that all took part; the digits of time and
/// variance, separators removed, must denote numbers that fit 64 bits.
pub open spec fn timing_of_groups(groups: Seq<Option<Seq<char>>>) -> Result<
    (Seq<char>, u64, u64),
    ExtractError,
> {
    if groups.len() != 4 || groups[1] is None || groups[2] is None || groups[3] is None {
        Err(ExtractError::Shape)
    } else if separated_u64(groups[2]->0) is None {
        Err(ExtractError::Time)
    } else if separated_u64(groups[3]->0) is None {
        Err(ExtractError::Variance)
    } else {
        Ok((groups[1]->0, separated_u64(groups[2]->0)->0, separated_u64(groups[3]->0)->0))
    }
}

/// The outcome of reading groups, the timing taken by its view.
pub open spec fn timing_view(r: Result<Timing, ExtractError>) -> Result<
    (Seq<char>, u64, u64),
    ExtractError,
> {
    match r {
        Ok(t) => Ok(t@),
        Err(e) => Err(e),
    }
}

/// Reads the timing out of the groups of a match.
pub fn timing_from_groups(groups: &Vec<Option<String>>) -> (r: Result<Timing, ExtractError>)
    ensures
        timing_view(r) == timing_of_groups(groups_view(groups@)),
{
    if groups.len() != 4 {
        return Err(ExtractError::Shape);
    }
    match (&groups[1], &groups[2], &groups[3]) {
        (Some(name), Some(time), Some(variance)) => {
            let time_digits = strip_separators(time.as_str());
            let variance_digits = strip_separators(variance.as_str());
            match parse_decimal(time_digits.as_str()) {
                None => Err(ExtractError::Time),
                Some(t) => match parse_decimal(variance_digits.as_str()) {
                    None => Err(ExtractError::Variance),
                    Some(v) => Ok(Timing { name: name.clone(), time: t, variance: v }),
                },
            }
        },
        _ => Err(ExtractError::Shape),
    }
}

/// What a line of output reports: nothing where the pattern does not match,
/// else the timing that the groups of the match state.
pub open spec fn line_timing(line: Seq<char>) -> Result<
    Option<(Seq<char>, u64, u64)>,
    ExtractError,
> {
    match regex_groups(BENCH_PATTERN@, line) {
        None => Ok(None),
        Some(groups) => match timing_of_groups(groups) {
            Ok(t) => Ok(Some(t)),
            Err(e) => Err(e),
        },
    }
}

/// The outcome of reading a line, the timing taken by its view.
pub open spec fn extract_view(r: Result<Option<Timing>, ExtractError>) -> Result<
    Option<(Seq<char>, u64, u64)>,
    ExtractError,
> {
    match r {
        Ok(Some(t)) => Ok(Some(t@)),
        Ok(None) => Ok(None),
        Err(e) => Err(e),
    }
}

/// Reads one line of output. A line that the pattern does not match gives
/// neither a timing nor an error.
pub fn extract(line: &str) -> (r: Result<Option<Timing>, ExtractError>)
    ensures
        extract_view(r) == line_timing(line@),
{
    match regex_captures(BENCH_PATTERN, line) {
        None => Ok(None),
        Some(groups) => match timing_from_groups(&groups) {
            Ok(t) => Ok(Some(t)),
            Err(e) => Err(e),
        },
    }
}

/// What the lines of a run report for `commit`: the measurements of the
/// lines before the first one that fails, in order, and that failure.
pub open spec fn lines_samples(commit: Seq<char>, lines: Seq<Seq<char>>) -> (
    Seq<Sample>,
    Option<ExtractError>,
)
    decreases lines.len(),
{
    if lines.len() == 0 {
        (Seq::empty(), None)
    } else {
        let (earlier, failure) = lines_samples(commit, lines.drop_last());
        if failure is Some {
            (earlier, failure)
        } else {
            match line_timing(lines.last()) {
                Ok(None) => (earlier, None),
                Ok(Some(t)) => (
                    earlier.push(Sample { commit, test: t.0, time: t.1, variance: t.2 }),
                    None,
                ),
                Err(e) => (earlier, Some(e)),
            }
        }
    }
}

/// A failure among the first lines is the failure of all the lines.
pub proof fn lemma_lines_samples_prefix(commit: Seq<char>, lines: Seq<Seq<char>>, k: int)
    requires
        0 <= k <= lines.len(),
        lines_samples(commit, lines.take(k)).1 is Some,
    ensures
        lines_samples(commit, lines) == lines_samples(commit, lines.take(k)),
    decreases lines.len(),
{
    if k == lines.len() {
        assert(lines.take(k) =~= lines);
    } else {
        assert(lines.drop_last().take(k) =~= lines.take(k));
        lemma_lines_samples_prefix(commit, lines.drop_last(), k);
    }
}

/// Every measurement that the lines of a run give is a measurement of the
/// commit that was run, and there are no more of them than lines.
pub proof fn law_samples_carry_commit(commit: Seq<char>, lines: Seq<Seq<char>>)
    ensures
        lines_samples(commit, lines).0.len() <= lines.len(),
        forall|i: int|
            0 <= i < lines_samples(commit, lines).0.len() ==> (#[trigger] lines_samples(
                commit,
                lines,
            ).0[i]).commit == commit,
    decreases lines.len(),
{
    if lines.len() > 0 {
        law_samples_carry_commit(commit, lines.drop_last());
    }
}

/// The measurements found in the output of one run.
#[derive(Debug, PartialEq, Eq)]
pub struct Extraction {
    /// The measurements of the lines before the first failure, in order.
    pub measurements: Vec<Measurement>,
    /// Why reading stopped, where it did.
    pub failure: Option<ExtractError>,
}

/// Reads the output of one run on `commit` line by line. Every line that
/// reports a timing gives a measurement of that commit; reading stops at the
/// first line that matches the pattern and states no timing.
pub fn extract_measurements(commit: &str, output: &str) -> (r: Extraction)
    ensures
        (samples(r.measurements@), r.failure) == lines_samples(commit@, lines_of(output@)),
{
    let lines = split_lines(output);
    let ghost texts = strings(lines@);
    let mut found: Vec<Measurement> = Vec::new();
    let mut i: usize = 0;
    proof {
        assert(texts.take(0) =~= Seq::empty());
        assert(samples(found@) =~= Seq::empty());
    }
    while i < lines.len()
        invariant
            0 <= i <= lines.len(),
            texts == strings(lines@),
            texts == lines_of(output@),
            lines_samples(commit@, texts.take(i as int)) == (samples(found@), None::<ExtractError>),
        decreases lines.len() - i,
    {
        proof {
            assert(texts.take(i + 1).drop_last() =~= texts.take(i as int));
            assert(texts.take(i + 1).last() == lines@[i as int]@);
        }
        match extract(lines[i].as_str()) {
            Ok(None) => {},
            Ok(Some(t)) => {
                let m = Measurement {
                    commit: commit.to_owned(),
                    test: t.name,
                    time: t.time,
                    variance: t.variance,
                };
                proof {
                    assert(samples(found@.push(m)) =~= samples(found@).push(m@));
                }
                found.push(m);
            },
            Err(e) => {
                proof {
                    lemma_lines_samples_prefix(commit@, texts, i + 1);
                }
                return Extraction { measurements: found, failure: Some(e) };
            },
        }
        i += 1;
    }
    proof {
        assert(texts.take(i as int) =~= texts);
    }
    Extraction { measurements: found, failure: None }
}

} // verus!
