//! Reading raw rows out of comma-separated text: the split itself is done by
//! the csv crate behind a trusted boundary; everything downstream of the
//! split is parsed and checked here.

use crate::errors::{Error, RowIssue};
use crate::record::{parse_rows, records_view, spec_parse_rows, Record};
use vstd::prelude::*;

verus! {

/// The table denoted by a comma-separated text: the fields of each record
/// after the header line, or nothing when the text is malformed at the
/// record level. The table depends on the text alone.
pub uninterp spec fn csv_table(s: Seq<char>) -> Option<Seq<Seq<Seq<char>>>>;

/// Relies on `csv::Reader` of the csv crate: `records` yields each record's
/// fields, the first line standing apart as the header. A record-level fault
/// (a record whose field count differs from the header's) surfaces as an
/// error carrying that record's position in the stream.
#[verifier::external_body]
fn split_rows(text: &str) -> (r: Result<Vec<Vec<String>>, u64>)
    ensures
        match r {
            Ok(rows) => csv_table(text@) == Some(rows.deep_view()),
            Err(_) => csv_table(text@) is None,
        },
{
    let mut reader = csv::Reader::from_reader(text.as_bytes());
    let mut rows: Vec<Vec<String>> = Vec::new();
    for rec in reader.records() {
        match rec {
            Ok(rec) => rows.push(rec.iter().map(|f| f.to_string()).collect()),
            Err(e) => return Err(e.position().map_or(0, |p| p.record())),
        }
    }
    Ok(rows)
}

/// Splits the input text into rows and parses every row into a record; the
/// first malformed row aborts the run, named by its 1-based line number.
pub fn parse_csv(text: &str) -> (r: Result<Vec<Record>, Error>)
    ensures
        match csv_table(text@) {
            Some(rows) => (match spec_parse_rows(rows, 1) {
                Ok(recs) => r matches Ok(v) && records_view(v@) == recs,
                Err(e) => r == Err::<Vec<Record>, Error>(e),
            }),
            None => r matches Err(e) && e matches Error::RowParse { line: _, kind }
                && kind == RowIssue::FieldCount,
        },
{
    match split_rows(text) {
        Ok(rows) => parse_rows(&rows),
        Err(line) => Err(Error::RowParse { line, kind: RowIssue::FieldCount }),
    }
}

} // verus!
