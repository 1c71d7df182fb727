//! Tabular text, as the `csv` crate writes and reads it.

use vstd::prelude::*;

verus! {

/// The text that `csv::Writer::write_record` writes for one record with
/// these fields, terminator included; `None` where the writer reports an
/// error or writes bytes that are no text.
pub uninterp spec fn csv_record_text(fields: Seq<Seq<char>>) -> Option<Seq<char>>;

/// The records that a `csv::Reader` without a header row reads from `text`,
/// each as its fields; `None` where it reports an error.
pub uninterp spec fn csv_records(text: Seq<char>) -> Option<Seq<Seq<Seq<char>>>>;

/// The view of an optional string.
pub open spec fn text_view(text: Option<String>) -> Option<Seq<char>> {
    match text {
        Some(s) => Some(s@),
        None => None,
    }
}

/// Rows of fields as character sequences.
pub open spec fn rows_view(rows: Seq<Vec<String>>) -> Seq<Seq<Seq<char>>> {
    rows.map_values(|row: Vec<String>| row@.map_values(|s: String| s@))
}

/// The outcome of reading tabular text as character sequences.
pub open spec fn table_view(table: Option<Vec<Vec<String>>>) -> Option<Seq<Seq<Seq<char>>>> {
    match table {
        Some(rows) => Some(rows_view(rows@)),
        None => None,
    }
}

/// Writes one record into memory with `csv::Writer::write_record` and hands
/// back the text. Trusted: the text depends on the fields alone.
#[verifier::external_body]
pub(crate) fn csv_write_record(fields: &Vec<String>) -> (r: Option<String>)
    ensures
        text_view(r) == csv_record_text(fields@.map_values(|s: String| s@)),
{
    let mut writer = csv::Writer::from_writer(Vec::new());
    writer.write_record(fields).ok()?;
    let bytes = writer.into_inner().ok()?;
    String::from_utf8(bytes).ok()
}

/// Reads every record of `text` with a `csv::Reader` that expects no header
/// row. Trusted: the records depend on the text alone.
#[verifier::external_body]
pub(crate) fn csv_read_records(text: &str) -> (r: Option<Vec<Vec<String>>>)
    ensures
        table_view(r) == csv_records(text@),
{
    let mut reader = csv::ReaderBuilder::new().has_headers(false).from_reader(text.as_bytes());
    let mut rows = Vec::new();
    for record in reader.records() {
        rows.push(record.ok()?.iter().map(|field| field.to_string()).collect());
    }
    Some(rows)
}

} // verus!
