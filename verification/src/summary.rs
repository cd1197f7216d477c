//! The summary layout: rows that declare several parameters at once, and rows that give one
//! named value each. Columns are registered as their names are met.
use crate::options::Options;
use crate::si::si_text;
use crate::source::{csv_records, outcome, read_records, IngestError};
use crate::table::{push_val, DataFrame, Table};
use crate::text::{contains, cut, cut_once, has, split, split_once, strip_prefix, strip_start};
use vstd::prelude::*;

verus! {

/// Where a summary ingestion stands: the table so far, and the position of the column that
/// the next value goes to.
pub struct Progress {
    pub table: Table,
    pub cursor: int,
}

/// Registers `key` and appends the decoded `value` to the column at the cursor, which moves
/// on by one. A cursor behind the last registered column is an error.
pub open spec fn place(at: Progress, key: Seq<char>, value: Seq<char>) -> Result<
    Progress,
    IngestError,
> {
    let table = at.table.ensure_column(key);
    if 0 <= at.cursor < table.columns.len() {
        Ok(Progress { table: table.append(at.cursor, si_text(value)), cursor: at.cursor + 1 })
    } else {
        Err(IngestError::MissingColumn)
    }
}

/// Places one entry of a parameters line, which has the form `key=value`.
pub open spec fn place_entry(at: Progress, entry: Seq<char>) -> Result<Progress, IngestError> {
    match split_once(entry, seq!['=']) {
        Some((key, value)) => place(at, key, value),
        None => Err(IngestError::MissingDelimiter),
    }
}

/// Places the entries of a parameters line in order, up to the first that fails.
pub open spec fn place_entries(at: Progress, entries: Seq<Seq<char>>) -> Result<
    Progress,
    IngestError,
>
    decreases entries.len(),
{
    if entries.len() == 0 {
        Ok(at)
    } else {
        match place_entries(at, entries.drop_last()) {
            Ok(next) => place_entry(next, entries.last()),
            Err(e) => Err(e),
        }
    }
}

/// Reads one row. A row whose first field holds `Parameters` must start with `Parameters: `;
/// what follows is cut at each `, ` into entries, which are placed from the first column on.
/// Any other row must have a fourth field: where that is not empty, the third field names
/// the column and the fourth is the value, placed at the cursor; where it is empty the row
/// is passed over.
pub open spec fn read_row(at: Progress, row: Seq<Seq<char>>) -> Result<Progress, IngestError> {
    if row.len() == 0 {
        Err(IngestError::MissingField)
    } else if contains(row[0], "Parameters"@) {
        match strip_prefix(row[0], "Parameters: "@) {
            Some(rest) => place_entries(
                Progress { table: at.table, cursor: 0 },
                split(rest, ", "@),
            ),
            None => Err(IngestError::MissingDelimiter),
        }
    } else if row.len() < 4 {
        Err(IngestError::MissingField)
    } else if row[3].len() > 0 {
        place(at, row[2], row[3])
    } else {
        Ok(at)
    }
}

/// Reads the rows in order from the empty table, up to the first row that fails.
pub open spec fn read_rows(rows: Seq<Seq<Seq<char>>>) -> Result<Progress, IngestError>
    decreases rows.len(),
{
    if rows.len() == 0 {
        Ok(Progress { table: Table::empty(), cursor: 0 })
    } else {
        match read_rows(rows.drop_last()) {
            Ok(at) => read_row(at, rows.last()),
            Err(e) => Err(e),
        }
    }
}

/// What the rows of a summary source give: the table after the last row, which must hold
/// the two columns that are the axes; else the first error.
pub open spec fn summary_result(rows: Seq<Seq<Seq<char>>>) -> Result<Table, IngestError> {
    match read_rows(rows) {
        Ok(at) => if at.table.names.len() < 2 {
            Err(IngestError::MissingField)
        } else {
            Ok(at.table)
        },
        Err(e) => Err(e),
    }
}

/// The settings after a summary source was read: where it gave a table, its first two column
/// names stand under `x` and `y`; else nothing changed.
pub open spec fn summary_hints(
    settings: Map<Seq<char>, Seq<char>>,
    rows: Seq<Seq<Seq<char>>>,
) -> Map<Seq<char>, Seq<char>> {
    match summary_result(rows) {
        Ok(table) => settings.insert("x"@, table.names[0]).insert("y"@, table.names[1]),
        Err(_) => settings,
    }
}

/// The result of one step with the frame and the cursor taken as a `Progress`.
spec fn step(df: DataFrame, res: Result<usize, IngestError>) -> Result<Progress, IngestError> {
    match res {
        Ok(cursor) => Ok(Progress { table: df@, cursor: cursor as int }),
        Err(e) => Err(e),
    }
}

fn place_value(df: &mut DataFrame, cursor: usize, key: &str, value: &str) -> (res: Result<
    usize,
    IngestError,
>)
    requires
        old(df)@.wf(),
    ensures
        step(*final(df), res) == place(
            Progress { table: old(df)@, cursor: cursor as int },
            key@,
            value@,
        ),
        res is Ok ==> final(df)@.wf(),
{
    df.ensure_column(key);
    if cursor < df.dims.len() {
        push_val(df, value, cursor);
        Ok(cursor + 1)
    } else {
        Err(IngestError::MissingColumn)
    }
}

fn place_all(df: &mut DataFrame, entries: &Vec<String>) -> (res: Result<usize, IngestError>)
    requires
        old(df)@.wf(),
    ensures
        step(*final(df), res) == place_entries(
            Progress { table: old(df)@, cursor: 0 },
            entries.deep_view(),
        ),
        res is Ok ==> final(df)@.wf(),
{
    let ghost start = Progress { table: df@, cursor: 0 };
    let ghost all = entries.deep_view();
    let mut cursor: usize = 0;
    let mut k: usize = 0;
    proof {
        reveal_strlit("=");
        assert("="@ =~= seq!['=']);
    }
    while k < entries.len()
        invariant
            k <= entries.len(),
            all == entries.deep_view(),
            start == (Progress { table: old(df)@, cursor: 0 }),
            "="@ == seq!['='],
            df@.wf(),
            place_entries(start, all.take(k as int)) == Ok::<Progress, IngestError>(
                Progress { table: df@, cursor: cursor as int },
            ),
        decreases entries.len() - k,
    {
        proof {
            let upto = all.take(k + 1);
            assert(upto.drop_last() == all.take(k as int));
            assert(upto.last() == entries[k as int]@);
            if place_entries(start, upto) is Err {
                lemma_entries_stop(start, all, k + 1);
            }
        }
        match cut_once(entries[k].as_str(), "=") {
            Some((key, value)) => {
                match place_value(df, cursor, key.as_str(), value.as_str()) {
                    Ok(next) => {
                        cursor = next;
                    },
                    Err(e) => {
                        return Err(e);
                    },
                }
            },
            None => {
                return Err(IngestError::MissingDelimiter);
            },
        }
        k += 1;
    }
    assert(all.take(entries.len() as int) == all);
    Ok(cursor)
}

/// Once a start of the entries has failed, all of them fail in the same way.
proof fn lemma_entries_stop(at: Progress, entries: Seq<Seq<char>>, k: int)
    requires
        0 <= k <= entries.len(),
        place_entries(at, entries.take(k)) is Err,
    ensures
        place_entries(at, entries) == place_entries(at, entries.take(k)),
    decreases entries.len() - k,
{
    if k < entries.len() {
        assert(entries.take(k + 1).drop_last() == entries.take(k));
        lemma_entries_stop(at, entries, k + 1);
    } else {
        assert(entries.take(k) == entries);
    }
}

/// Once a start of the rows has failed, all of them fail in the same way.
proof fn lemma_rows_stop(rows: Seq<Seq<Seq<char>>>, k: int)
    requires
        0 <= k <= rows.len(),
        read_rows(rows.take(k)) is Err,
    ensures
        read_rows(rows) == read_rows(rows.take(k)),
    decreases rows.len() - k,
{
    if k < rows.len() {
        assert(rows.take(k + 1).drop_last() == rows.take(k));
        lemma_rows_stop(rows, k + 1);
    } else {
        assert(rows.take(k) == rows);
    }
}

fn read_one(df: &mut DataFrame, cursor: usize, row: &Vec<String>) -> (res: Result<
    usize,
    IngestError,
>)
    requires
        old(df)@.wf(),
    ensures
        step(*final(df), res) == read_row(
            Progress { table: old(df)@, cursor: cursor as int },
            row.deep_view(),
        ),
        res is Ok ==> final(df)@.wf(),
{
    if row.len() == 0 {
        return Err(IngestError::MissingField);
    }
    if has(row[0].as_str(), "Parameters") {
        match strip_start(row[0].as_str(), "Parameters: ") {
            Some(rest) => {
                let entries = cut(rest.as_str(), ", ");
                place_all(df, &entries)
            },
            None => Err(IngestError::MissingDelimiter),
        }
    } else if row.len() < 4 {
        Err(IngestError::MissingField)
    } else if row[3].as_str().unicode_len() > 0 {
        place_value(df, cursor, row[2].as_str(), row[3].as_str())
    } else {
        Ok(cursor)
    }
}

/// Builds the table of a summary source from its rows, and reports the first two column
/// names as the axes.
pub fn summary_rows(rows: &Vec<Vec<String>>, options: &mut Options) -> (res: Result<
    DataFrame,
    IngestError,
>)
    ensures
        outcome(res) == summary_result(rows.deep_view()),
        final(options)@ == summary_hints(old(options)@, rows.deep_view()),
{
    let ghost all = rows.deep_view();
    let mut df = DataFrame::new();
    let mut cursor: usize = 0;
    let mut i: usize = 0;
    while i < rows.len()
        invariant
            i <= rows.len(),
            all == rows.deep_view(),
            *options == *old(options),
            df@.wf(),
            read_rows(all.take(i as int)) == Ok::<Progress, IngestError>(
                Progress { table: df@, cursor: cursor as int },
            ),
        decreases rows.len() - i,
    {
        proof {
            let upto = all.take(i + 1);
            assert(upto.drop_last() == all.take(i as int));
            assert(upto.last() == rows[i as int].deep_view());
            if read_rows(upto) is Err {
                lemma_rows_stop(all, i + 1);
            }
        }
        match read_one(&mut df, cursor, &rows[i]) {
            Ok(next) => {
                cursor = next;
            },
            Err(e) => {
                return Err(e);
            },
        }
        i += 1;
    }
    assert(all.take(rows.len() as int) == all);
    if df.header.len() < 2 {
        return Err(IngestError::MissingField);
    }
    options.update("x".to_owned(), df.header[0].clone());
    options.update("y".to_owned(), df.header[1].clone());
    Ok(df)
}

/// What reading a summary source from bytes gives: where the reader yields records, what
/// they give as a summary source; else a source error, and the settings as they were.
pub open spec fn summary_ensures(
    data: Seq<u8>,
    before: Map<Seq<char>, Seq<char>>,
    res: Result<DataFrame, IngestError>,
    after: Map<Seq<char>, Seq<char>>,
) -> bool {
    match csv_records(data) {
        Some(rows) => {
            &&& outcome(res) == summary_result(rows)
            &&& after == summary_hints(before, rows)
        },
        None => {
            &&& res matches Err(IngestError::Source(_))
            &&& after == before
        },
    }
}

/// Reads a summary source from the bytes of its delimited text. The first record is the
/// header, which this layout passes over.
pub fn summary(data: &[u8], options: &mut Options) -> (res: Result<DataFrame, IngestError>)
    ensures
        summary_ensures(data@, old(options)@, res, final(options)@),
{
    match read_records(data) {
        Ok(rows) => summary_rows(&rows, options),
        Err(e) => Err(IngestError::Source(e)),
    }
}

} // verus!
