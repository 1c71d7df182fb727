//! Shaping measurements into a chart: filters, medians of repeated timings,
//! the choice of the X axis, and the series to draw.

use crate::data::load_measurements;
use crate::data::load_result;
use crate::data::samples;
use crate::data::LoadError;
use crate::data::Measurement;
use crate::data::Sample;
use crate::filter::clause_of;
use crate::filter::clauses;
use crate::filter::parse_filters;
use crate::filter::select;
use crate::filter::selected;
use crate::pattern::regex_compiles;
use crate::order::distinct;
use crate::order::law_positions_of;
use crate::order::lemma_distinct;
use crate::order::lemma_positions_of_absent;
use crate::order::position;
use crate::order::positions_of;
use crate::text::chars_of;
use crate::text::strings;
use vstd::prelude::*;
use vstd::relations::sorted_by;
use vstd::relations::total_ordering;
use vstd::seq_lib::lemma_sorted_unique;
use vstd::seq_lib::to_multiset_build;
use vstd::seq_lib::to_multiset_insert;

verus! {

/// Whether the values never decrease.
pub open spec fn ascending(values: Seq<u64>) -> bool {
    forall|i: int, j: int| 0 <= i <= j < values.len() ==> values[i] <= values[j]
}

/// The median of values in ascending order: the middle one, and of an even
/// number of values the lower of the two in the middle. Of no values it is 0.
pub open spec fn median_of(values: Seq<u64>) -> u64 {
    if values.len() == 0 {
        0
    } else {
        values[(values.len() - 1) / 2]
    }
}

/// How far the values in ascending order reach from their median, to the
/// side on which they reach further. Of no values it is 0.
pub open spec fn error_of(values: Seq<u64>) -> u64 {
    if values.len() == 0 {
        0
    } else {
        let median = median_of(values);
        let below = median - values[0];
        let above = values[values.len() - 1] - median;
        if below >= above {
            below as u64
        } else {
            above as u64
        }
    }
}

/// The median of `values` and the error bound around it.
pub fn compute_median_and_error(values: &[u64]) -> (r: (u64, u64))
    requires
        ascending(values@),
    ensures
        r.0 == median_of(values@),
        r.1 == error_of(values@),
{
    let len = values.len();
    if len == 0 {
        return (0, 0);
    }
    let median = values[(len - 1) / 2];
    let below = median - values[0];
    let above = values[len - 1] - median;
    let error = if below >= above {
        below
    } else {
        above
    };
    (median, error)
}

/// `value` as a percentage of `baseline`, rounded down; a baseline of 0
/// counts as 1, and a percentage above `u64::MAX` as `u64::MAX`.
pub open spec fn scaled(value: u64, baseline: u64) -> u64 {
    let base: int = if baseline == 0 {
        1
    } else {
        baseline as int
    };
    let percent = value * 100 / base;
    if percent > u64::MAX {
        u64::MAX
    } else {
        percent as u64
    }
}

/// Rescales `value` to a percentage of `baseline`.
pub fn scale(value: u64, baseline: u64) -> (r: u64)
    ensures
        r == scaled(value, baseline),
{
    let base: u128 = if baseline == 0 {
        1
    } else {
        baseline as u128
    };
    let percent: u128 = (value as u128) * 100 / base;
    if percent > u64::MAX as u128 {
        u64::MAX
    } else {
        percent as u64
    }
}

/// How the points of a chart lie along the X axis.
#[derive(Debug, PartialEq, Eq)]
pub struct XAxis {
    /// The caption of the axis.
    pub axis_label: String,
    /// For each measurement, its X coordinate.
    pub coords: Vec<usize>,
    /// The caption of each X coordinate; `None` where the coordinates are
    /// captioned by their numbers.
    pub ticks: Option<Vec<String>>,
}

/// One of the two names of a measurement.
#[derive(Clone, Copy, Debug, PartialEq, Eq, Structural)]
pub enum NameKey {
    Commit,
    Test,
}

/// The name of `m` that `key` asks for.
pub open spec fn name_of(key: NameKey, m: Sample) -> Seq<char> {
    match key {
        NameKey::Commit => m.commit,
        NameKey::Test => m.test,
    }
}

/// The names of the measurements that `key` asks for, in order.
pub open spec fn names_of(key: NameKey, ms: Seq<Sample>) -> Seq<Seq<char>> {
    ms.map_values(|m: Sample| name_of(key, m))
}

fn name_ref(key: NameKey, m: &Measurement) -> (name: &String)
    ensures
        name@ == name_of(key, m@),
{
    match key {
        NameKey::Commit => &m.commit,
        NameKey::Test => &m.test,
    }
}

/// An X axis with its texts as character sequences.
pub struct XAxisView {
    pub axis_label: Seq<char>,
    pub coords: Seq<usize>,
    pub ticks: Option<Seq<Seq<char>>>,
}

impl View for XAxis {
    type V = XAxisView;

    open spec fn view(&self) -> XAxisView {
        XAxisView {
            axis_label: self.axis_label@,
            coords: self.coords@,
            ticks: match self.ticks {
                Some(ticks) => Some(strings(ticks@)),
                None => None,
            },
        }
    }
}

/// The axis over the names that `key` asks for: one tick for each distinct
/// name, in the order in which the names first appear, and each measurement
/// at the tick of its name.
pub open spec fn name_axis(key: NameKey, label: Seq<char>, ms: Seq<Sample>) -> XAxisView {
    let ticks = distinct(names_of(key, ms));
    XAxisView {
        axis_label: label,
        coords: Seq::new(ms.len(), |i: int| ticks.index_of(name_of(key, ms[i])) as usize),
        ticks: Some(ticks),
    }
}

/// The axis on which each measurement lies at its own position.
pub open spec fn index_axis(ms: Seq<Sample>) -> XAxisView {
    XAxisView {
        axis_label: "measurement"@,
        coords: Seq::new(ms.len(), |i: int| i as usize),
        ticks: None,
    }
}

/// On the axis over names each measurement lies at the one tick that
/// carries its name.
pub proof fn law_name_axis(key: NameKey, label: Seq<char>, ms: Seq<Sample>, i: int)
    requires
        0 <= i < ms.len(),
        ms.len() <= usize::MAX,
    ensures
        name_axis(key, label, ms).coords[i] < name_axis(key, label, ms).ticks->0.len(),
        name_axis(key, label, ms).ticks->0[name_axis(key, label, ms).coords[i] as int] == name_of(
            key,
            ms[i],
        ),
        name_axis(key, label, ms).ticks->0.no_duplicates(),
{
    let names = names_of(key, ms);
    let ticks = distinct(names);
    lemma_distinct(names);
    assert(names[i] == name_of(key, ms[i]));
    assert(names.contains(name_of(key, ms[i])));
    assert(ticks.contains(name_of(key, ms[i])));
    let at = ticks.index_of(name_of(key, ms[i]));
    assert(0 <= at < ticks.len() && ticks[at] == name_of(key, ms[i]));
}

/// The X axis over one of the names of the measurements. The names are
/// taken to appear first in the order wanted.
pub fn compute_x_axis_from_names(
    measurements: &[Measurement],
    axis_label: &str,
    name: NameKey,
) -> (x: XAxis)
    ensures
        x@ == name_axis(name, axis_label@, samples(measurements@)),
{
    let ghost ms = samples(measurements@);
    let ghost names = names_of(name, ms);
    let mut ticks: Vec<String> = Vec::new();
    let mut coords: Vec<usize> = Vec::new();
    let mut k: usize = 0;
    proof {
        assert(names.take(0) =~= Seq::empty());
        assert(strings(ticks@) =~= Seq::empty());
    }
    while k < measurements.len()
        invariant
            0 <= k <= measurements.len(),
            ms == samples(measurements@),
            names == names_of(name, ms),
            strings(ticks@) == distinct(names.take(k as int)),
            coords@.len() == k,
            forall|i: int|
                0 <= i < k ==> (#[trigger] coords@[i]) < ticks@.len() && ticks@[coords@[i] as int]@
                    == names[i],
        decreases measurements.len() - k,
    {
        let wanted = name_ref(name, &measurements[k]);
        proof {
            assert(names.take(k + 1).drop_last() =~= names.take(k as int));
            assert(names.take(k + 1).last() == wanted@);
        }
        match position(&ticks, wanted) {
            Some(at) => {
                proof {
                    assert(strings(ticks@)[at as int] == wanted@);
                    assert(strings(ticks@).contains(wanted@));
                }
                coords.push(at);
            },
            None => {
                let tick = wanted.clone();
                proof {
                    assert(strings(ticks@.push(tick)) =~= strings(ticks@).push(tick@));
                }
                coords.push(ticks.len());
                ticks.push(tick);
            },
        }
        k += 1;
    }
    let x = XAxis { axis_label: axis_label.to_owned(), coords, ticks: Some(ticks) };
    proof {
        assert(names.take(k as int) =~= names);
        let wanted = name_axis(name, axis_label@, ms);
        lemma_distinct(names);
        assert forall|i: int| 0 <= i < ms.len() implies x@.coords[i] == wanted.coords[i] by {
            let tick_texts = strings(x.ticks->0@);
            let at = tick_texts.index_of(name_of(name, ms[i]));
            assert(tick_texts[x.coords@[i] as int] == x.ticks->0@[x.coords@[i] as int]@);
            assert(names[i] == name_of(name, ms[i]));
            assert(0 <= at < tick_texts.len() && tick_texts[at] == name_of(name, ms[i]));
        }
        assert(x@.coords =~= wanted.coords);
    }
    x
}

/// The X axis over the commits of the measurements.
pub fn compute_x_axis_from_commits(measurements: &[Measurement]) -> (x: XAxis)
    ensures
        x@ == name_axis(NameKey::Commit, "commit"@, samples(measurements@)),
{
    compute_x_axis_from_names(measurements, "commit", NameKey::Commit)
}

/// The X axis over the tests of the measurements.
pub fn compute_x_axis_from_tests(measurements: &[Measurement]) -> (x: XAxis)
    ensures
        x@ == name_axis(NameKey::Test, "test"@, samples(measurements@)),
{
    compute_x_axis_from_names(measurements, "test", NameKey::Test)
}

/// The X axis on which each measurement lies at its own position.
pub fn compute_x_axis_from_indices(measurements: &[Measurement]) -> (x: XAxis)
    ensures
        x@ == index_axis(samples(measurements@)),
{
    let mut coords: Vec<usize> = Vec::new();
    let mut k: usize = 0;
    while k < measurements.len()
        invariant
            0 <= k <= measurements.len(),
            coords@.len() == k,
            forall|i: int| 0 <= i < k ==> coords@[i] == i,
        decreases measurements.len() - k,
    {
        coords.push(k);
        k += 1;
    }
    let x = XAxis { axis_label: "measurement".to_owned(), coords, ticks: None };
    proof {
        assert(x@.coords =~= index_axis(samples(measurements@)).coords);
    }
    x
}

/// The measurements of one test: a series of the chart.
#[derive(Debug, PartialEq, Eq)]
pub struct DataSet {
    /// The name of the test.
    pub name: String,
    /// The positions of its measurements, in ascending order.
    pub indices: Vec<usize>,
}

/// The tests of the measurements, in order.
pub open spec fn tests_of(ms: Seq<Sample>) -> Seq<Seq<char>> {
    names_of(NameKey::Test, ms)
}

/// Whether `sets` groups the measurements by test: one set for each
/// distinct test, in the order in which the tests first appear, each with
/// the positions of all the measurements of its test.
pub open spec fn is_grouping(sets: Seq<DataSet>, ms: Seq<Sample>) -> bool {
    &&& sets.map_values(|d: DataSet| d.name@) == distinct(tests_of(ms))
    &&& forall|j: int|
        0 <= j < sets.len() ==> (#[trigger] sets[j]).indices@ == positions_of(
            tests_of(ms),
            sets[j].name@,
        )
}

/// Groups the measurements by test.
pub fn compute_data_sets(measurements: &[Measurement]) -> (sets: Vec<DataSet>)
    ensures
        is_grouping(sets@, samples(measurements@)),
{
    let ghost ms = samples(measurements@);
    let ghost tests = tests_of(ms);
    let mut names: Vec<String> = Vec::new();
    let mut groups: Vec<Vec<usize>> = Vec::new();
    let mut k: usize = 0;
    proof {
        assert(tests.take(0) =~= Seq::empty());
        assert(strings(names@) =~= Seq::empty());
    }
    while k < measurements.len()
        invariant
            0 <= k <= measurements.len(),
            ms == samples(measurements@),
            tests == tests_of(ms),
            strings(names@) == distinct(tests.take(k as int)),
            groups@.len() == names@.len(),
            forall|j: int|
                0 <= j < names@.len() ==> (#[trigger] groups@[j])@ == positions_of(
                    tests.take(k as int),
                    names@[j]@,
                ),
        decreases measurements.len() - k,
    {
        let test = &measurements[k].test;
        proof {
            assert(tests.take(k + 1).drop_last() =~= tests.take(k as int));
            assert(tests.take(k + 1).last() == test@);
        }
        match position(&names, test) {
            Some(at) => {
                proof {
                    assert(strings(names@)[at as int] == test@);
                    assert(strings(names@).contains(test@));
                    lemma_distinct(tests.take(k as int));
                    assert forall|j: int| 0 <= j < names@.len() && j != at implies names@[j]@
                        != test@ by {
                        assert(strings(names@)[j] == names@[j]@);
                    }
                }
                groups[at].push(k);
            },
            None => {
                let name = test.clone();
                let mut group: Vec<usize> = Vec::new();
                group.push(k);
                proof {
                    assert(strings(names@.push(name)) =~= strings(names@).push(name@));
                    lemma_distinct(tests.take(k as int));
                    lemma_positions_of_absent(tests.take(k as int), test@);
                    assert(group@ =~= Seq::<usize>::empty().push(k));
                    assert forall|j: int| 0 <= j < names@.len() implies names@[j]@ != test@ by {
                        assert(strings(names@)[j] == names@[j]@);
                    }
                }
                names.push(name);
                groups.push(group);
            },
        }
        k += 1;
    }
    proof {
        assert(tests.take(k as int) =~= tests);
    }
    let mut sets: Vec<DataSet> = Vec::new();
    let mut j: usize = 0;
    while j < names.len()
        invariant
            0 <= j <= names.len(),
            groups@.len() == names@.len(),
            sets@.len() == j,
            forall|i: int|
                0 <= i < j ==> (#[trigger] sets@[i]).name@ == names@[i]@ && sets@[i].indices@
                    == groups@[i]@,
        decreases names.len() - j,
    {
        sets.push(DataSet { name: names[j].clone(), indices: groups[j].clone() });
        j += 1;
    }
    proof {
        assert(sets@.map_values(|d: DataSet| d.name@) =~= strings(names@));
    }
    sets
}

/// `name` as a caption: each `_`, which the plotting backend would read as
/// markup, gives way to `-`.
pub open spec fn escaped(name: Seq<char>) -> Seq<char> {
    name.map_values(
        |c: char|
            if c == '_' {
                '-'
            } else {
                c
            },
    )
}

/// Makes a caption of `name`.
pub fn escape(name: &str) -> (caption: String)
    ensures
        caption@ == escaped(name@),
{
    let chars = chars_of(name);
    let mut caption = String::new();
    let mut i: usize = 0;
    while i < chars.len()
        invariant
            chars@ == name@,
            0 <= i <= chars.len(),
            caption@ == escaped(chars@.take(i as int)),
        decreases chars.len() - i,
    {
        let c = if chars[i] == '_' {
            '-'
        } else {
            chars[i]
        };
        proof {
            assert(escaped(chars@.take(i + 1)) =~= escaped(chars@.take(i as int)).push(c));
        }
        caption.push(c);
        i += 1;
    }
    proof {
        assert(chars@.take(i as int) =~= chars@);
    }
    caption
}

/// The commit and the test of a measurement: repeated runs share them.
pub open spec fn key_of(m: Sample) -> (Seq<char>, Seq<char>) {
    (m.commit, m.test)
}

/// The keys of the measurements, in order.
pub open spec fn keys_of(ms: Seq<Sample>) -> Seq<(Seq<char>, Seq<char>)> {
    ms.map_values(|m: Sample| key_of(m))
}

/// The times of the measurements with this key, in the order of the
/// measurements.
pub open spec fn times_of(ms: Seq<Sample>, key: (Seq<char>, Seq<char>)) -> Seq<u64>
    decreases ms.len(),
{
    if ms.len() == 0 {
        Seq::empty()
    } else {
        let earlier = times_of(ms.drop_last(), key);
        if key_of(ms.last()) == key {
            earlier.push(ms.last().time)
        } else {
            earlier
        }
    }
}

/// The order of timings by their value.
pub open spec fn by_value() -> spec_fn(u64, u64) -> bool {
    |a: u64, b: u64| a <= b
}

/// The times of the measurements with this key, in ascending order.
pub open spec fn sorted_times(ms: Seq<Sample>, key: (Seq<char>, Seq<char>)) -> Seq<u64> {
    times_of(ms, key).sort_by(by_value())
}

/// The baseline of a test: the median of the first of the distinct keys, in
/// the order of their first appearance, that has this test.
pub open spec fn baseline_of(ms: Seq<Sample>, test: Seq<char>) -> u64 {
    let keys = distinct(keys_of(ms));
    match keys.map_values(|k: (Seq<char>, Seq<char>)| k.1).index_of_first(test) {
        Some(at) => median_of(sorted_times(ms, keys[at])),
        None => 0,
    }
}

/// What stands for all the measurements with this key: their median as the
/// time, their error bound as the variance; where `normalize` is set, both
/// as percentages of the baseline of the test.
pub open spec fn aggregate(
    ms: Seq<Sample>,
    key: (Seq<char>, Seq<char>),
    normalize: bool,
) -> Sample {
    let times = sorted_times(ms, key);
    if normalize {
        Sample {
            commit: key.0,
            test: key.1,
            time: scaled(median_of(times), baseline_of(ms, key.1)),
            variance: scaled(error_of(times), baseline_of(ms, key.1)),
        }
    } else {
        Sample { commit: key.0, test: key.1, time: median_of(times), variance: error_of(times) }
    }
}

/// One measurement for each distinct key, in the order in which the keys
/// first appear.
pub open spec fn aggregates(ms: Seq<Sample>, normalize: bool) -> Seq<Sample> {
    distinct(keys_of(ms)).map_values(|key: (Seq<char>, Seq<char>)| aggregate(ms, key, normalize))
}

/// Commits and tests, paired place by place.
pub open spec fn paired(commits: Seq<String>, tests: Seq<String>) -> Seq<(Seq<char>, Seq<char>)> {
    Seq::new(commits.len(), |j: int| (commits[j]@, tests[j]@))
}

/// No measurement with a key: no times for it.
pub proof fn lemma_times_of_absent(ms: Seq<Sample>, key: (Seq<char>, Seq<char>))
    requires
        !keys_of(ms).contains(key),
    ensures
        times_of(ms, key) == Seq::<u64>::empty(),
    decreases ms.len(),
{
    if ms.len() > 0 {
        assert(keys_of(ms)[ms.len() - 1] != key);
        assert forall|i: int| 0 <= i < keys_of(ms.drop_last()).len() implies keys_of(
            ms.drop_last(),
        )[i] != key by {
            assert(keys_of(ms)[i] == keys_of(ms.drop_last())[i]);
        }
        lemma_times_of_absent(ms.drop_last(), key);
    }
}

/// Values in ascending order with the same members as `times` are `times`
/// sorted.
pub proof fn lemma_ascending_is_sorted(group: Seq<u64>, times: Seq<u64>)
    requires
        ascending(group),
        group.to_multiset() == times.to_multiset(),
    ensures
        group == times.sort_by(by_value()),
{
    assert(total_ordering(by_value()));
    times.lemma_sort_by_ensures(by_value());
    assert(sorted_by(group, by_value()));
    lemma_sorted_unique(group, times.sort_by(by_value()), by_value());
}

fn insert_ascending(group: &mut Vec<u64>, time: u64)
    requires
        ascending(old(group)@),
    ensures
        ascending(final(group)@),
        final(group)@.to_multiset() == old(group)@.to_multiset().insert(time),
{
    let mut i: usize = 0;
    while i < group.len() && group[i] <= time
        invariant
            0 <= i <= group.len(),
            group@ == old(group)@,
            forall|j: int| 0 <= j < i ==> group@[j] <= time,
        decreases group.len() - i,
    {
        i += 1;
    }
    proof {
        to_multiset_insert(group@, i as int, time);
        assert(forall|j: int| i <= j < group@.len() ==> group@[i as int] <= group@[j]);
    }
    group.insert(i, time);
}

fn key_position(
    commits: &Vec<String>,
    tests: &Vec<String>,
    commit: &String,
    test: &String,
) -> (r: Option<usize>)
    requires
        commits@.len() == tests@.len(),
    ensures
        match r {
            Some(at) => at < commits@.len() && paired(commits@, tests@)[at as int] == (
                commit@,
                test@,
            ),
            None => !paired(commits@, tests@).contains((commit@, test@)),
        },
{
    let mut i: usize = 0;
    while i < commits.len()
        invariant
            0 <= i <= commits.len(),
            commits@.len() == tests@.len(),
            forall|j: int| 0 <= j < i ==> paired(commits@, tests@)[j] != (commit@, test@),
        decreases commits.len() - i,
    {
        if commits[i] == *commit && tests[i] == *test {
            return Some(i);
        }
        i += 1;
    }
    None
}

/// Collapses the repeated measurements of each commit and test into one:
/// their median, with the error bound around it as the variance. The
/// results stand in the order in which commit and test first appear
/// together. Where `normalize` is set, time and variance are percentages of
/// the median that the test has on the first commit it was measured on.
pub fn compute_medians(measurements: &[Measurement], normalize: bool) -> (r: Vec<Measurement>)
    ensures
        samples(r@) == aggregates(samples(measurements@), normalize),
{
    let ghost ms = samples(measurements@);
    let ghost keys = keys_of(ms);
    let mut commits: Vec<String> = Vec::new();
    let mut tests: Vec<String> = Vec::new();
    let mut groups: Vec<Vec<u64>> = Vec::new();
    let mut k: usize = 0;
    proof {
        assert(keys.take(0) =~= Seq::empty());
        assert(paired(commits@, tests@) =~= Seq::empty());
    }
    while k < measurements.len()
        invariant
            0 <= k <= measurements.len(),
            ms == samples(measurements@),
            keys == keys_of(ms),
            commits@.len() == tests@.len(),
            groups@.len() == tests@.len(),
            paired(commits@, tests@) == distinct(keys.take(k as int)),
            forall|j: int|
                0 <= j < groups@.len() ==> ascending((#[trigger] groups@[j])@) && groups@[j]@.to_multiset()
                    == times_of(ms.take(k as int), paired(commits@, tests@)[j]).to_multiset(),
        decreases measurements.len() - k,
    {
        let m = &measurements[k];
        let ghost key = (m.commit@, m.test@);
        let ghost before = paired(commits@, tests@);
        proof {
            assert(keys.take(k + 1).drop_last() =~= keys.take(k as int));
            assert(keys.take(k + 1).last() == key);
            assert(ms.take(k + 1).drop_last() =~= ms.take(k as int));
            assert(key_of(ms.take(k + 1).last()) == key);
            lemma_distinct(keys.take(k as int));
        }
        match key_position(&commits, &tests, &m.commit, &m.test) {
            Some(at) => {
                proof {
                    assert(before.contains(key));
                    assert forall|j: int| 0 <= j < before.len() && j != at implies before[j]
                        != key by {}
                    to_multiset_build(times_of(ms.take(k as int), key), m.time);
                }
                insert_ascending(&mut groups[at], m.time);
            },
            None => {
                let mut group: Vec<u64> = Vec::new();
                group.push(m.time);
                let commit = m.commit.clone();
                let test = m.test.clone();
                proof {
                    assert(paired(commits@.push(commit), tests@.push(test)) =~= before.push(key));
                    assert(keys_of(ms.take(k as int)) =~= keys.take(k as int));
                    lemma_times_of_absent(ms.take(k as int), key);
                    assert(group@ =~= Seq::<u64>::empty().push(m.time));
                }
                commits.push(commit);
                tests.push(test);
                groups.push(group);
            },
        }
        k += 1;
    }
    proof {
        assert(keys.take(k as int) =~= keys);
        assert(ms.take(k as int) =~= ms);
    }
    let ghost found = paired(commits@, tests@);
    let mut medians: Vec<u64> = Vec::new();
    let mut errors: Vec<u64> = Vec::new();
    let mut j: usize = 0;
    while j < groups.len()
        invariant
            0 <= j <= groups.len(),
            commits@.len() == tests@.len(),
            groups@.len() == tests@.len(),
            found == paired(commits@, tests@),
            medians@.len() == j,
            errors@.len() == j,
            forall|i: int|
                0 <= i < groups@.len() ==> ascending((#[trigger] groups@[i])@) && groups@[i]@.to_multiset()
                    == times_of(ms, found[i]).to_multiset(),
            forall|i: int|
                0 <= i < j ==> medians@[i] == median_of(sorted_times(ms, found[i])) && errors@[i]
                    == error_of(sorted_times(ms, found[i])),
        decreases groups.len() - j,
    {
        proof {
            lemma_ascending_is_sorted(groups@[j as int]@, times_of(ms, found[j as int]));
        }
        let (median, error) = compute_median_and_error(groups[j].as_slice());
        medians.push(median);
        errors.push(error);
        j += 1;
    }
    let mut r: Vec<Measurement> = Vec::new();
    let mut i: usize = 0;
    proof {
        assert(samples(r@) =~= aggregates(ms, normalize).take(0));
    }
    while i < commits.len()
        invariant
            0 <= i <= commits.len(),
            commits@.len() == tests@.len(),
            medians@.len() == tests@.len(),
            errors@.len() == tests@.len(),
            found == paired(commits@, tests@),
            found == distinct(keys_of(ms)),
            forall|i: int|
                0 <= i < found.len() ==> medians@[i] == median_of(sorted_times(ms, found[i]))
                    && errors@[i] == error_of(sorted_times(ms, found[i])),
            samples(r@) == aggregates(ms, normalize).take(i as int),
        decreases commits.len() - i,
    {
        let (time, variance) = if normalize {
            match position(&tests, &tests[i]) {
                Some(at) => {
                    proof {
                        let firsts = found.map_values(|k: (Seq<char>, Seq<char>)| k.1);
                        firsts.index_of_first_ensures(tests@[i as int]@);
                        assert(firsts[at as int] == tests@[i as int]@);
                        assert(firsts.contains(tests@[i as int]@));
                        let first = firsts.index_of_first(tests@[i as int]@)->0;
                        assert(first == at) by {
                            if first < at {
                                assert(tests@[first]@ == firsts[first]);
                            }
                        }
                    }
                    (scale(medians[i], medians[at]), scale(errors[i], medians[at]))
                },
                None => {
                    proof {
                        assert(strings(tests@)[i as int] == tests@[i as int]@);
                        assert(false);
                    }
                    (medians[i], errors[i])
                },
            }
        } else {
            (medians[i], errors[i])
        };
        let m = Measurement { commit: commits[i].clone(), test: tests[i].clone(), time, variance };
        proof {
            assert(m@ == aggregate(ms, found[i as int], normalize));
            assert(samples(r@.push(m)) =~= samples(r@).push(m@));
            assert(aggregates(ms, normalize).take(i + 1) =~= aggregates(ms, normalize).take(
                i as int,
            ).push(m@));
        }
        r.push(m);
        i += 1;
    }
    proof {
        assert(aggregates(ms, normalize).take(i as int) =~= aggregates(ms, normalize));
    }
    r
}

/// What to draw, and where to.
#[derive(Clone, Copy, Debug)]
pub struct Config<'c> {
    /// Draw the variance of each measurement as an error bar.
    pub include_variance: bool,
    /// Draw the median of repeated measurements in place of each of them.
    pub compute_medians: bool,
    /// With medians: draw percentages of each test's baseline.
    pub compute_normalize: bool,
    /// The file that the chart is written to.
    pub output_file: &'c str,
    /// The filters that select the measurements to draw.
    pub filters: &'c [String],
}

/// One series of a chart: the measurements of one test.
#[derive(Debug, PartialEq, Eq)]
pub struct Series {
    /// The caption of the series.
    pub caption: String,
    /// The X coordinate of each point.
    pub xs: Vec<usize>,
    /// The time of each point.
    pub ys: Vec<u64>,
    /// The error bar of each point, where the chart has error bars.
    pub errors: Option<Vec<u64>>,
}

/// A chart as the plotting backend is to draw it.
#[derive(Debug, PartialEq, Eq)]
pub struct Chart {
    /// The caption of the X axis.
    pub x_label: String,
    /// The caption of the Y axis.
    pub y_label: String,
    /// The captions of the X coordinates, where they have any.
    pub ticks: Option<Vec<String>>,
    /// The series, one for each test.
    pub series: Vec<Series>,
    /// The file to write the chart to.
    pub output_file: String,
}

/// A series with its caption as a character sequence.
pub struct SeriesView {
    pub caption: Seq<char>,
    pub xs: Seq<usize>,
    pub ys: Seq<u64>,
    pub errors: Option<Seq<u64>>,
}

impl View for Series {
    type V = SeriesView;

    open spec fn view(&self) -> SeriesView {
        SeriesView {
            caption: self.caption@,
            xs: self.xs@,
            ys: self.ys@,
            errors: match self.errors {
                Some(errors) => Some(errors@),
                None => None,
            },
        }
    }
}

/// A chart with its texts as character sequences.
pub struct ChartView {
    pub x_label: Seq<char>,
    pub y_label: Seq<char>,
    pub ticks: Option<Seq<Seq<char>>>,
    pub series: Seq<SeriesView>,
    pub output_file: Seq<char>,
}

impl View for Chart {
    type V = ChartView;

    open spec fn view(&self) -> ChartView {
        ChartView {
            x_label: self.x_label@,
            y_label: self.y_label@,
            ticks: match self.ticks {
                Some(ticks) => Some(strings(ticks@)),
                None => None,
            },
            series: self.series@.map_values(|s: Series| s@),
            output_file: self.output_file@,
        }
    }
}

/// The series of one test: a point for each measurement of the test, in the
/// order of the measurements, at the X coordinate of the measurement and at
/// the height of its time; the variance is the error bar.
pub open spec fn series_of(
    ms: Seq<Sample>,
    coords: Seq<usize>,
    test: Seq<char>,
    with_errors: bool,
) -> SeriesView {
    let at = positions_of(tests_of(ms), test);
    SeriesView {
        caption: escaped(test),
        xs: at.map_values(|i: usize| coords[i as int]),
        ys: at.map_values(|i: usize| ms[i as int].time),
        errors: if with_errors {
            Some(at.map_values(|i: usize| ms[i as int].variance))
        } else {
            None
        },
    }
}

/// The caption of the Y axis.
pub open spec fn y_label_of(normalize: bool) -> Seq<char> {
    if normalize {
        "normalized ns/iter"@
    } else {
        "ns/iter"@
    }
}

/// The chart of the measurements along the axis `x`: one series for each
/// test, in the order in which the tests first appear.
pub open spec fn chart_of(
    ms: Seq<Sample>,
    x: XAxisView,
    with_errors: bool,
    normalize: bool,
    output_file: Seq<char>,
) -> ChartView {
    ChartView {
        x_label: x.axis_label,
        y_label: y_label_of(normalize),
        ticks: x.ticks,
        series: distinct(tests_of(ms)).map_values(
            |test: Seq<char>| series_of(ms, x.coords, test, with_errors),
        ),
        output_file,
    }
}

fn series_for(
    measurements: &[Measurement],
    coords: &Vec<usize>,
    set: &DataSet,
    with_errors: bool,
) -> (series: Series)
    requires
        measurements@.len() <= coords@.len(),
        set.indices@ == positions_of(tests_of(samples(measurements@)), set.name@),
    ensures
        series@ == series_of(samples(measurements@), coords@, set.name@, with_errors),
{
    let ghost ms = samples(measurements@);
    let ghost at = set.indices@;
    let mut xs: Vec<usize> = Vec::new();
    let mut ys: Vec<u64> = Vec::new();
    let mut errors: Vec<u64> = Vec::new();
    let mut k: usize = 0;
    let count = measurements.len();
    proof {
        assert(tests_of(ms).len() == count);
        law_positions_of(tests_of(ms), set.name@);
    }
    while k < set.indices.len()
        invariant
            0 <= k <= set.indices.len(),
            ms == samples(measurements@),
            at == set.indices@,
            measurements@.len() <= coords@.len(),
            forall|j: int| 0 <= j < at.len() ==> (#[trigger] at[j]) < ms.len(),
            xs@ == at.take(k as int).map_values(|i: usize| coords@[i as int]),
            ys@ == at.take(k as int).map_values(|i: usize| ms[i as int].time),
            errors@ == at.take(k as int).map_values(|i: usize| ms[i as int].variance),
        decreases set.indices.len() - k,
    {
        let i = set.indices[k];
        proof {
            assert(at[k as int] < ms.len());
            assert(at.take(k + 1) =~= at.take(k as int).push(i));
            assert(at.take(k + 1).map_values(|i: usize| coords@[i as int]) =~= at.take(
                k as int,
            ).map_values(|i: usize| coords@[i as int]).push(coords@[i as int]));
            assert(at.take(k + 1).map_values(|i: usize| ms[i as int].time) =~= at.take(
                k as int,
            ).map_values(|i: usize| ms[i as int].time).push(ms[i as int].time));
            assert(at.take(k + 1).map_values(|i: usize| ms[i as int].variance) =~= at.take(
                k as int,
            ).map_values(|i: usize| ms[i as int].variance).push(ms[i as int].variance));
        }
        xs.push(coords[i]);
        ys.push(measurements[i].time);
        errors.push(measurements[i].variance);
        k += 1;
    }
    proof {
        assert(at.take(k as int) =~= at);
    }
    Series {
        caption: escape(set.name.as_str()),
        xs,
        ys,
        errors: if with_errors {
            Some(errors)
        } else {
            None
        },
    }
}

fn copy_texts(texts: &Vec<String>) -> (copy: Vec<String>)
    ensures
        strings(copy@) == strings(texts@),
{
    let mut copy: Vec<String> = Vec::new();
    let mut i: usize = 0;
    while i < texts.len()
        invariant
            0 <= i <= texts.len(),
            copy@.len() == i,
            forall|j: int| 0 <= j < i ==> (#[trigger] copy@[j])@ == texts@[j]@,
        decreases texts.len() - i,
    {
        copy.push(texts[i].clone());
        i += 1;
    }
    proof {
        assert(strings(copy@) =~= strings(texts@));
    }
    copy
}

/// Shapes the chart of the measurements along the axis `x_axis`, which
/// gives each measurement its X coordinate.
pub fn plot_with_x_axis(
    measurements: &[Measurement],
    x_axis: &XAxis,
    config: Config,
) -> (chart: Chart)
    requires
        measurements@.len() <= x_axis.coords@.len(),
    ensures
        chart@ == chart_of(
            samples(measurements@),
            x_axis@,
            config.include_variance,
            config.compute_normalize,
            config.output_file@,
        ),
{
    let ghost ms = samples(measurements@);
    let sets = compute_data_sets(measurements);
    let ghost tests = distinct(tests_of(ms));
    let mut series: Vec<Series> = Vec::new();
    let mut j: usize = 0;
    proof {
        assert(sets@.len() == sets@.map_values(|d: DataSet| d.name@).len());
    }
    while j < sets.len()
        invariant
            0 <= j <= sets.len(),
            ms == samples(measurements@),
            tests == distinct(tests_of(ms)),
            measurements@.len() <= x_axis.coords@.len(),
            is_grouping(sets@, ms),
            sets@.len() == tests.len(),
            series@.len() == j,
            forall|i: int|
                0 <= i < j ==> (#[trigger] series@[i])@ == series_of(
                    ms,
                    x_axis.coords@,
                    tests[i],
                    config.include_variance,
                ),
        decreases sets.len() - j,
    {
        proof {
            assert(sets@.map_values(|d: DataSet| d.name@)[j as int] == sets@[j as int].name@);
        }
        let one = series_for(measurements, &x_axis.coords, &sets[j], config.include_variance);
        series.push(one);
        j += 1;
    }
    let y_label = if config.compute_normalize {
        "normalized ns/iter".to_owned()
    } else {
        "ns/iter".to_owned()
    };
    let ticks = match &x_axis.ticks {
        Some(ticks) => Some(copy_texts(ticks)),
        None => None,
    };
    let chart = Chart {
        x_label: x_axis.axis_label.clone(),
        y_label,
        ticks,
        series,
        output_file: config.output_file.to_owned(),
    };
    proof {
        assert(chart@.series =~= chart_of(
            ms,
            x_axis@,
            config.include_variance,
            config.compute_normalize,
            config.output_file@,
        ).series);
    }
    chart
}

/// The chart with one tick on the X axis for each commit.
pub fn plot_commits_as_x(measurements: &[Measurement], config: Config) -> (chart: Chart)
    ensures
        chart@ == chart_of(
            samples(measurements@),
            name_axis(NameKey::Commit, "commit"@, samples(measurements@)),
            config.include_variance,
            config.compute_normalize,
            config.output_file@,
        ),
{
    let x_axis = compute_x_axis_from_commits(measurements);
    plot_with_x_axis(measurements, &x_axis, config)
}

/// The chart with one tick on the X axis for each test.
pub fn plot_tests_as_x(measurements: &[Measurement], config: Config) -> (chart: Chart)
    ensures
        chart@ == chart_of(
            samples(measurements@),
            name_axis(NameKey::Test, "test"@, samples(measurements@)),
            config.include_variance,
            config.compute_normalize,
            config.output_file@,
        ),
{
    let x_axis = compute_x_axis_from_tests(measurements);
    plot_with_x_axis(measurements, &x_axis, config)
}

/// The chart with the measurements side by side in their own order.
pub fn plot_indices_as_x(measurements: &[Measurement], config: Config) -> (chart: Chart)
    ensures
        chart@ == chart_of(
            samples(measurements@),
            index_axis(samples(measurements@)),
            config.include_variance,
            config.compute_normalize,
            config.output_file@,
        ),
{
    let x_axis = compute_x_axis_from_indices(measurements);
    plot_with_x_axis(measurements, &x_axis, config)
}

/// Why no chart could be shaped.
#[derive(Debug, PartialEq, Eq)]
pub enum PlotError {
    /// The data could not be read.
    Load(LoadError),
    /// This filter holds no regular expression.
    InvalidFilter { filter: String },
}

/// Whether `names` holds more than one distinct name.
pub open spec fn varied(names: Seq<Seq<char>>) -> bool {
    distinct(names).len() > 1
}

/// The X axis of a chart of `ms`: over the commits where there is more than
/// one commit, else over the tests where there is more than one test, else
/// over the measurements themselves.
pub open spec fn axis_of(ms: Seq<Sample>) -> XAxisView {
    if varied(names_of(NameKey::Commit, ms)) {
        name_axis(NameKey::Commit, "commit"@, ms)
    } else if varied(names_of(NameKey::Test, ms)) {
        name_axis(NameKey::Test, "test"@, ms)
    } else {
        index_axis(ms)
    }
}

/// The measurements that are drawn: those that the filters select, and
/// with medians one for each commit and test.
pub open spec fn drawn(
    loaded: Seq<Sample>,
    filters: Seq<(bool, Seq<char>)>,
    medians: bool,
    normalize: bool,
) -> Seq<Sample> {
    let kept = selected(filters, loaded);
    if medians {
        aggregates(kept, normalize)
    } else {
        kept
    }
}

/// The chart of the measurements `loaded` under `config`. A chart of
/// medians always has error bars.
pub open spec fn plotted(loaded: Seq<Sample>, config: Config) -> ChartView {
    let filters = config.filters@.map_values(|text: String| clause_of(text@));
    let ms = drawn(loaded, filters, config.compute_medians, config.compute_normalize);
    chart_of(
        ms,
        axis_of(ms),
        config.include_variance || config.compute_medians,
        config.compute_normalize,
        config.output_file@,
    )
}

/// Names that are all the same have one distinct name among them.
pub proof fn lemma_uniform_not_varied(names: Seq<Seq<char>>)
    requires
        forall|i: int| 0 <= i < names.len() ==> (#[trigger] names[i]) == names[0],
    ensures
        !varied(names),
        names.len() > 0 ==> distinct(names) == seq![names[0]],
    decreases names.len(),
{
    if names.len() > 0 {
        let earlier = names.drop_last();
        assert forall|i: int| 0 <= i < earlier.len() implies (#[trigger] earlier[i])
            == earlier[0] by {
            assert(earlier[i] == names[i]);
            assert(earlier[0] == names[0]);
        }
        lemma_uniform_not_varied(earlier);
        if earlier.len() > 0 {
            assert(earlier[0] == names[0]);
            assert(distinct(earlier)[0] == names.last());
        }
    }
}

/// Two different names make more than one distinct name.
pub proof fn lemma_different_is_varied(names: Seq<Seq<char>>, i: int, j: int)
    requires
        0 <= i < names.len(),
        0 <= j < names.len(),
        names[i] != names[j],
    ensures
        varied(names),
{
    lemma_distinct(names);
    assert(names.contains(names[i]));
    assert(names.contains(names[j]));
    let d = distinct(names);
    assert(d.contains(names[i]));
    assert(d.contains(names[j]));
}

fn has_several(measurements: &[Measurement], key: NameKey) -> (r: bool)
    ensures
        r == varied(names_of(key, samples(measurements@))),
{
    let ghost names = names_of(key, samples(measurements@));
    let mut i: usize = 1;
    while i < measurements.len()
        invariant
            1 <= i,
            names == names_of(key, samples(measurements@)),
            forall|j: int| 0 <= j < i && j < names.len() ==> (#[trigger] names[j]) == names[0],
        decreases measurements.len() - i,
    {
        if *name_ref(key, &measurements[i]) != *name_ref(key, &measurements[0]) {
            proof {
                lemma_different_is_varied(names, i as int, 0);
            }
            return true;
        }
        i += 1;
    }
    proof {
        lemma_uniform_not_varied(names);
    }
    false
}

/// Shapes the chart of the measurements that the text `data` of a store
/// holds: reads them, keeps those that the filters of `config` select,
/// takes medians where asked to, chooses the X axis, and groups the
/// measurements into series.
pub fn plot(data: &str, config: Config) -> (r: Result<Chart, PlotError>)
    ensures
        match load_result(data@) {
            Err(e) => r matches Err(PlotError::Load(cause)) && cause == e,
            Ok(loaded) => match r {
                Ok(chart) => {
                    &&& forall|i: int|
                        0 <= i < config.filters@.len() ==> regex_compiles(
                            clause_of((#[trigger] config.filters@[i])@).1,
                        )
                    &&& chart@ == plotted(loaded, config)
                },
                Err(PlotError::InvalidFilter { filter }) => exists|i: int|
                    {
                        &&& 0 <= i < config.filters@.len()
                        &&& filter@ == (#[trigger] config.filters@[i])@
                        &&& !regex_compiles(clause_of(config.filters@[i]@).1)
                        &&& forall|j: int|
                            0 <= j < i ==> regex_compiles(
                                clause_of((#[trigger] config.filters@[j])@).1,
                            )
                    },
                Err(PlotError::Load(_)) => false,
            },
        },
{
    let loaded = match load_measurements(data) {
        Ok(loaded) => loaded,
        Err(e) => {
            return Err(PlotError::Load(e));
        },
    };
    let filters = match parse_filters(config.filters) {
        Ok(filters) => filters,
        Err(e) => {
            return Err(PlotError::InvalidFilter { filter: e.filter });
        },
    };
    let ghost read = samples(loaded@);
    let ghost stated = config.filters@.map_values(|text: String| clause_of(text@));
    proof {
        assert(load_result(data@) == Ok::<Seq<Sample>, LoadError>(read));
        assert(clauses(filters@) =~= stated);
        assert forall|i: int| 0 <= i < config.filters@.len() implies regex_compiles(
            clause_of((#[trigger] config.filters@[i])@).1,
        ) by {
            assert(filters@[i]@ == clause_of(config.filters@[i]@));
        }
    }
    let kept = select(filters.as_slice(), loaded);
    let measurements = if config.compute_medians {
        compute_medians(kept.as_slice(), config.compute_normalize)
    } else {
        kept
    };
    let shaped = Config {
        include_variance: config.include_variance || config.compute_medians,
        compute_medians: config.compute_medians,
        compute_normalize: config.compute_normalize,
        output_file: config.output_file,
        filters: config.filters,
    };
    if has_several(measurements.as_slice(), NameKey::Commit) {
        Ok(plot_commits_as_x(measurements.as_slice(), shaped))
    } else if has_several(measurements.as_slice(), NameKey::Test) {
        Ok(plot_tests_as_x(measurements.as_slice(), shaped))
    } else {
        Ok(plot_indices_as_x(measurements.as_slice(), shaped))
    }
}

} // verus!
