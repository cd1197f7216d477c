//! Delimited text, read and written by the `csv` crate: the bytes of a source become a header
//! and records of text fields, and records become bytes again.
use crate::table::{DataFrame, Table};
use vstd::prelude::*;

verus! {

/// The error type of the `csv` crate.
#[verifier::external_type_specification]
#[verifier::external_body]
pub struct ExCsvError(csv::Error);

/// Why an ingestion gave no table.
#[derive(Debug)]
pub enum IngestError {
    /// The source could not be read as delimited text.
    Source(csv::Error),
    /// The header or a row lacks a field that the layout needs.
    MissingField,
    /// A composite field lacks the delimiter that parts it.
    MissingDelimiter,
    /// A row holds a number of fields that the header does not allow.
    FieldCountMismatch,
    /// A value was addressed to a column that is not registered.
    MissingColumn,
}

/// Why an export gave no text.
#[derive(Debug)]
pub enum ExportError {
    /// The records could not be written as delimited text.
    Sink(csv::Error),
    /// The table has no column, so no number of rows.
    NoColumns,
    /// The name and column counts differ, or a column differs in length from the first.
    Ragged,
}

/// The fields of the first record of a source, or `None` where the reader reports an error
/// for it.
pub uninterp spec fn csv_header(data: Seq<u8>) -> Option<Seq<Seq<char>>>;

/// The fields of each record of a source behind the first, in order, or `None` where the
/// reader reports an error for one of them.
pub uninterp spec fn csv_records(data: Seq<u8>) -> Option<Seq<Seq<Seq<char>>>>;

/// The bytes that the writer gives for the records, or `None` where it reports an error.
pub uninterp spec fn csv_bytes(records: Seq<Seq<Seq<char>>>) -> Option<Seq<u8>>;

/// The result of an ingestion with the frame taken by its view.
pub open spec fn outcome(res: Result<DataFrame, IngestError>) -> Result<Table, IngestError> {
    match res {
        Ok(df) => Ok(df@),
        Err(e) => Err(e),
    }
}

/// Builds a reader over `data` with `csv::ReaderBuilder` (headers on, all else as the crate
/// sets it) and asks it for the header with `Reader::headers`. The contract names the result:
/// the same bytes always give the same header or the same failure.
#[verifier::external_body]
pub(crate) fn read_header(data: &[u8]) -> (res: Result<Vec<String>, csv::Error>)
    ensures
        match res {
            Ok(header) => csv_header(data@) == Some(header.deep_view()),
            Err(_) => csv_header(data@) is None,
        },
{
    let mut reader = csv::ReaderBuilder::new().has_headers(true).from_reader(data);
    Ok(reader.headers()?.iter().map(String::from).collect())
}

/// Builds a reader over `data` with `csv::ReaderBuilder` (headers on, all else as the crate
/// sets it) and collects what `Reader::records` yields, which leaves the header out. The
/// contract names the result: the same bytes always give the same records or a failure.
#[verifier::external_body]
pub(crate) fn read_records(data: &[u8]) -> (res: Result<Vec<Vec<String>>, csv::Error>)
    ensures
        match res {
            Ok(rows) => csv_records(data@) == Some(rows.deep_view()),
            Err(_) => csv_records(data@) is None,
        },
{
    let mut reader = csv::ReaderBuilder::new().has_headers(true).from_reader(data);
    let mut rows: Vec<Vec<String>> = Vec::new();
    for record in reader.records() {
        rows.push(record?.iter().map(String::from).collect());
    }
    Ok(rows)
}

/// Writes each record with `csv::Writer::write_record` into a writer over a byte vector and
/// takes the vector back with `Writer::into_inner`. The contract names the result: the same
/// records always give the same bytes or a failure.
#[verifier::external_body]
pub(crate) fn write_records(records: &Vec<Vec<String>>) -> (res: Result<Vec<u8>, csv::Error>)
    ensures
        match res {
            Ok(bytes) => csv_bytes(records.deep_view()) == Some(bytes@),
            Err(_) => csv_bytes(records.deep_view()) is None,
        },
{
    let mut writer = csv::Writer::from_writer(Vec::new());
    for record in records {
        writer.write_record(record)?;
    }
    writer.into_inner().map_err(|e| csv::Error::from(e.into_error()))
}

} // verus!
