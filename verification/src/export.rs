//! Export of a finished table as delimited text: one record of column names, then one record
//! per row.
use crate::source::{csv_bytes, write_records, ExportError};
use crate::table::{DataFrame, Table};
use vstd::prelude::*;

verus! {

/// Every column is as long as the first.
pub open spec fn even_columns(t: Table) -> bool {
    forall|j: int| 0 <= j < t.columns.len() ==> (#[trigger] t.columns[j]).len() == t.columns[0].len()
}

/// Row `i` of a table: cell `i` of every column, in column order.
pub open spec fn row_at(t: Table, i: int) -> Seq<Seq<char>> {
    Seq::new(t.columns.len(), |j: int| t.columns[j][i])
}

/// The records of an export: the names, then the rows. A table whose names and columns
/// differ in number, or whose columns differ in length, is refused, and so is one without
/// columns.
pub open spec fn export_records(t: Table) -> Result<Seq<Seq<Seq<char>>>, ExportError> {
    if t.names.len() != t.columns.len() {
        Err(ExportError::Ragged)
    } else if t.columns.len() == 0 {
        Err(ExportError::NoColumns)
    } else if !even_columns(t) {
        Err(ExportError::Ragged)
    } else {
        Ok(seq![t.names] + Seq::new(t.columns[0].len(), |i: int| row_at(t, i)))
    }
}

/// What an export gives: the bytes that the writer makes of the records.
pub open spec fn export_ensures(t: Table, res: Result<Vec<u8>, ExportError>) -> bool {
    match export_records(t) {
        Ok(records) => match csv_bytes(records) {
            Some(bytes) => res matches Ok(text) && text@ == bytes,
            None => res matches Err(ExportError::Sink(_)),
        },
        Err(e) => res == Err::<Vec<u8>, ExportError>(e),
    }
}

/// Lays a table out as records: the names first, then row by row.
pub fn export_rows(df: &DataFrame) -> (res: Result<Vec<Vec<String>>, ExportError>)
    ensures
        match res {
            Ok(records) => export_records(df@) == Ok::<Seq<Seq<Seq<char>>>, ExportError>(
                records.deep_view(),
            ),
            Err(e) => export_records(df@) == Err::<Seq<Seq<Seq<char>>>, ExportError>(e),
        },
{
    let ghost t = df@;
    if df.header.len() != df.dims.len() {
        return Err(ExportError::Ragged);
    }
    if df.dims.len() == 0 {
        return Err(ExportError::NoColumns);
    }
    let rows = df.dims[0].len();
    let mut j: usize = 1;
    while j < df.dims.len()
        invariant
            1 <= j <= df.dims.len(),
            t == df@,
            rows == t.columns[0].len(),
            forall|k: int| 0 <= k < j ==> (#[trigger] t.columns[k]).len() == rows,
        decreases df.dims.len() - j,
    {
        if df.dims[j].len() != rows {
            assert(t.columns[j as int].len() != t.columns[0].len());
            return Err(ExportError::Ragged);
        }
        j += 1;
    }
    let mut records: Vec<Vec<String>> = Vec::new();
    records.push(df.header.clone());
    assert(records.deep_view() =~~= seq![t.names]) by {
        assert(records[0].deep_view() =~= df.header.deep_view());
    }
    let mut i: usize = 0;
    while i < rows
        invariant
            i <= rows,
            t == df@,
            rows == t.columns[0].len(),
            t.columns.len() > 0,
            even_columns(t),
            records.deep_view() == seq![t.names] + Seq::new(i as nat, |k: int| row_at(t, k)),
        decreases rows - i,
    {
        let mut record: Vec<String> = Vec::new();
        let mut c: usize = 0;
        assert(record.deep_view() =~= Seq::empty());
        while c < df.dims.len()
            invariant
                c <= df.dims.len(),
                i < rows,
                t == df@,
                rows == t.columns[0].len(),
                even_columns(t),
                record.deep_view() == Seq::new(c as nat, |k: int| t.columns[k][i as int]),
            decreases df.dims.len() - c,
        {
            let ghost before = record.deep_view();
            assert(t.columns[c as int].len() == rows);
            record.push(df.dims[c][i].clone());
            assert(record.deep_view() =~= before.push(t.columns[c as int][i as int]));
            c += 1;
            assert(record.deep_view() =~= Seq::new(c as nat, |k: int| t.columns[k][i as int]));
        }
        let ghost before = records.deep_view();
        records.push(record);
        assert(record.deep_view() =~= row_at(t, i as int));
        assert(records.deep_view() =~~= before.push(row_at(t, i as int)));
        i += 1;
        assert(records.deep_view() =~~= seq![t.names] + Seq::new(
            i as nat,
            |k: int| row_at(t, k),
        ));
    }
    Ok(records)
}

/// Writes a table as delimited text.
pub fn export(df: DataFrame) -> (res: Result<Vec<u8>, ExportError>)
    ensures
        export_ensures(df@, res),
{
    let records = match export_rows(&df) {
        Ok(records) => records,
        Err(e) => {
            return Err(e);
        },
    };
    match write_records(&records) {
        Ok(text) => Ok(text),
        Err(e) => Err(ExportError::Sink(e)),
    }
}

} // verus!
