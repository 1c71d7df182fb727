//! Measurement records and the rows that the store keeps of them.

use crate::table::csv_read_records;
use crate::table::csv_record_text;
use crate::table::csv_records;
use crate::table::csv_write_record;
use crate::table::rows_view;
use crate::text::decimal_digits;
use crate::text::decimal_u64;
use crate::text::lemma_decimal_round_trip;
use crate::text::parse_decimal;
use crate::text::render_decimal;
use crate::text::strings;
use vstd::prelude::*;

verus! {

/// One timing sample: a benchmark's time per iteration on one revision.
#[derive(Debug, PartialEq, Eq)]
pub struct Measurement {
    /// Revision identifier, typically a short hash.
    pub commit: String,
    /// Name of the benchmark that was run.
    pub test: String,
    /// Nanoseconds per iteration.
    pub time: u64,
    /// The reported +/- bound.
    pub variance: u64,
}

/// What a measurement says: its texts as character sequences.
pub struct Sample {
    pub commit: Seq<char>,
    pub test: Seq<char>,
    pub time: u64,
    pub variance: u64,
}

impl View for Measurement {
    type V = Sample;

    open spec fn view(&self) -> Sample {
        Sample { commit: self.commit@, test: self.test@, time: self.time, variance: self.variance }
    }
}

impl Clone for Measurement {
    fn clone(&self) -> (m: Measurement)
        ensures
            m@ == self@,
    {
        Measurement {
            commit: self.commit.clone(),
            test: self.test.clone(),
            time: self.time,
            variance: self.variance,
        }
    }
}

/// The views of a sequence of measurements.
pub open spec fn samples(v: Seq<Measurement>) -> Seq<Sample> {
    v.map_values(|m: Measurement| m@)
}

impl Measurement {
    /// Builds a measurement from its four fields.
    pub fn new(commit: String, test: String, time: u64, variance: u64) -> (m: Measurement)
        ensures
            m.commit == commit,
            m.test == test,
            m.time == time,
            m.variance == variance,
    {
        Measurement { commit, test, time, variance }
    }
}

/// The four fields of the row that the store keeps for `m`: commit, test,
/// and the two numbers as decimal numerals.
pub open spec fn record_fields(m: Sample) -> Seq<Seq<char>> {
    seq![m.commit, m.test, decimal_digits(m.time as nat), decimal_digits(m.variance as nat)]
}

/// The measurement that a row states: it has exactly four fields, and the
/// last two are decimal numerals that fit 64 bits.
pub open spec fn record_sample(fields: Seq<Seq<char>>) -> Option<Sample> {
    if fields.len() == 4 && decimal_u64(fields[2]) is Some && decimal_u64(fields[3]) is Some {
        Some(
            Sample {
                commit: fields[0],
                test: fields[1],
                time: decimal_u64(fields[2])->0,
                variance: decimal_u64(fields[3])->0,
            },
        )
    } else {
        None
    }
}

/// Why stored text could not be read back.
#[derive(Clone, Copy, Debug, PartialEq, Eq, Structural)]
pub enum LoadError {
    /// The text is no well-formed table.
    Table,
    /// The row at this position, counted from zero, states no measurement.
    Row { index: usize },
}

/// The measurements that the rows state, or the first row that states none.
pub open spec fn decode_rows(rows: Seq<Seq<Seq<char>>>) -> Result<Seq<Sample>, LoadError>
    decreases rows.len(),
{
    if rows.len() == 0 {
        Ok(Seq::empty())
    } else {
        match decode_rows(rows.drop_last()) {
            Err(e) => Err(e),
            Ok(earlier) => match record_sample(rows.last()) {
                Some(m) => Ok(earlier.push(m)),
                None => Err(LoadError::Row { index: (rows.len() - 1) as usize }),
            },
        }
    }
}

/// What reading the text of a store gives.
pub open spec fn load_result(text: Seq<char>) -> Result<Seq<Sample>, LoadError> {
    match csv_records(text) {
        Some(rows) => decode_rows(rows),
        None => Err(LoadError::Table),
    }
}

/// The outcome of a load with the measurements taken by their views.
pub open spec fn loaded_view(r: Result<Vec<Measurement>, LoadError>) -> Result<
    Seq<Sample>,
    LoadError,
> {
    match r {
        Ok(ms) => Ok(samples(ms@)),
        Err(e) => Err(e),
    }
}

/// A failure among the first rows is the failure of the whole table.
pub proof fn lemma_decode_rows_prefix(rows: Seq<Seq<Seq<char>>>, k: int)
    requires
        0 <= k <= rows.len(),
        decode_rows(rows.take(k)) is Err,
    ensures
        decode_rows(rows) == decode_rows(rows.take(k)),
    decreases rows.len(),
{
    if k == rows.len() {
        assert(rows.take(k) =~= rows);
    } else {
        assert(rows.drop_last().take(k) =~= rows.take(k));
        lemma_decode_rows_prefix(rows.drop_last(), k);
    }
}

/// The row of a measurement states that measurement.
pub proof fn law_record_round_trip(m: Sample)
    ensures
        record_sample(record_fields(m)) == Some(m),
{
    lemma_decimal_round_trip(m.time as nat);
    lemma_decimal_round_trip(m.variance as nat);
}

/// Reading back the rows of any measurements gives exactly those
/// measurements, in the same order.
pub proof fn law_rows_round_trip(ms: Seq<Sample>)
    ensures
        decode_rows(ms.map_values(|m: Sample| record_fields(m))) == Ok::<Seq<Sample>, LoadError>(
            ms,
        ),
    decreases ms.len(),
{
    let rows = ms.map_values(|m: Sample| record_fields(m));
    if ms.len() == 0 {
        assert(ms =~= Seq::empty());
    } else {
        law_rows_round_trip(ms.drop_last());
        assert(rows.drop_last() =~= ms.drop_last().map_values(|m: Sample| record_fields(m)));
        law_record_round_trip(ms.last());
        assert(ms.drop_last().push(ms.last()) =~= ms);
    }
}

/// Rows that are appended to a table take nothing away from it: where both
/// parts state measurements, the whole states those of the first part and
/// then those of the second.
pub proof fn law_append_keeps_rows(rows: Seq<Seq<Seq<char>>>, more: Seq<Seq<Seq<char>>>)
    requires
        decode_rows(rows) is Ok,
        decode_rows(more) is Ok,
    ensures
        decode_rows(rows + more) == Ok::<Seq<Sample>, LoadError>(
            decode_rows(rows)->Ok_0 + decode_rows(more)->Ok_0,
        ),
    decreases more.len(),
{
    if more.len() == 0 {
        assert(rows + more =~= rows);
        assert(decode_rows(rows)->Ok_0 + decode_rows(more)->Ok_0 =~= decode_rows(rows)->Ok_0);
    } else {
        law_append_keeps_rows(rows, more.drop_last());
        assert((rows + more).drop_last() =~= rows + more.drop_last());
        assert((rows + more).last() == more.last());
        let earlier = decode_rows(more.drop_last())->Ok_0;
        let m = record_sample(more.last())->0;
        assert((decode_rows(rows)->Ok_0 + earlier).push(m) =~= decode_rows(rows)->Ok_0
            + earlier.push(m));
    }
}

/// The fields of the row for `m`.
pub fn record_of(m: &Measurement) -> (fields: Vec<String>)
    ensures
        strings(fields@) == record_fields(m@),
{
    let mut fields: Vec<String> = Vec::new();
    fields.push(m.commit.clone());
    fields.push(m.test.clone());
    fields.push(render_decimal(m.time));
    fields.push(render_decimal(m.variance));
    assert(strings(fields@) =~= record_fields(m@));
    fields
}

/// The measurement that a row states, if it states one.
pub fn measurement_of_record(fields: &Vec<String>) -> (r: Option<Measurement>)
    ensures
        match r {
            Some(m) => record_sample(strings(fields@)) == Some(m@),
            None => record_sample(strings(fields@)) is None,
        },
{
    if fields.len() != 4 {
        return None;
    }
    let time = parse_decimal(fields[2].as_str());
    let variance = parse_decimal(fields[3].as_str());
    match (time, variance) {
        (Some(t), Some(v)) => Some(
            Measurement { commit: fields[0].clone(), test: fields[1].clone(), time: t, variance: v },
        ),
        _ => None,
    }
}

/// The measurements that the rows of a table state. The first row that
/// states none fails the whole table: no row is skipped.
pub fn decode_measurements(rows: &Vec<Vec<String>>) -> (r: Result<Vec<Measurement>, LoadError>)
    ensures
        loaded_view(r) == decode_rows(rows_view(rows@)),
{
    let ghost table = rows_view(rows@);
    let mut ms: Vec<Measurement> = Vec::new();
    let mut i: usize = 0;
    proof {
        assert(samples(ms@) =~= Seq::empty());
        assert(table.take(0) =~= Seq::empty());
    }
    while i < rows.len()
        invariant
            0 <= i <= rows.len(),
            table == rows_view(rows@),
            decode_rows(table.take(i as int)) == Ok::<Seq<Sample>, LoadError>(samples(ms@)),
        decreases rows.len() - i,
    {
        proof {
            assert(table.take(i + 1).drop_last() =~= table.take(i as int));
            assert(table.take(i + 1).last() == strings(rows@[i as int]@));
        }
        match measurement_of_record(&rows[i]) {
            Some(m) => {
                proof {
                    assert(samples(ms@.push(m)) =~= samples(ms@).push(m@));
                }
                ms.push(m);
            },
            None => {
                proof {
                    lemma_decode_rows_prefix(table, i + 1);
                }
                return Err(LoadError::Row { index: i });
            },
        }
        i += 1;
    }
    proof {
        assert(table.take(i as int) =~= table);
    }
    Ok(ms)
}

/// Reads the text of a store: every row must state a measurement.
pub fn load_measurements(text: &str) -> (r: Result<Vec<Measurement>, LoadError>)
    ensures
        loaded_view(r) == load_result(text@),
{
    match csv_read_records(text) {
        Some(rows) => decode_measurements(&rows),
        None => Err(LoadError::Table),
    }
}

/// The text to append to the store for `m`: one row, terminator included.
/// `None` where the row cannot be written as text.
pub fn encode_measurement(m: &Measurement) -> (r: Option<String>)
    ensures
        crate::table::text_view(r) == csv_record_text(record_fields(m@)),
{
    let fields = record_of(m);
    csv_write_record(&fields)
}

} // verus!
