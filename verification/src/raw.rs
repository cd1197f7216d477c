//! The raw layout: the header names the columns, and every row holds one cell per column.
use crate::options::Options;
use crate::si::si_text;
use crate::source::{csv_header, csv_records, outcome, read_header, read_records, IngestError};
use crate::table::{push_val, DataFrame, Table};
use vstd::prelude::*;

verus! {

/// Every row holds as many fields as the header.
pub open spec fn rows_fit(header: Seq<Seq<char>>, rows: Seq<Seq<Seq<char>>>) -> bool {
    forall|i: int| 0 <= i < rows.len() ==> (#[trigger] rows[i]).len() == header.len()
}

/// The table of a raw source whose rows fit: the header gives the names, and cell `i` of
/// column `j` is the decoded field `j` of row `i`.
pub open spec fn raw_table(header: Seq<Seq<char>>, rows: Seq<Seq<Seq<char>>>) -> Table {
    Table {
        names: header,
        columns: Seq::new(
            header.len(),
            |j: int| Seq::new(rows.len(), |i: int| si_text(rows[i][j])),
        ),
    }
}

/// What a raw source gives: its table where every row fits the header, whatever the number
/// of its names; else an error.
pub open spec fn raw_result(header: Seq<Seq<char>>, rows: Seq<Seq<Seq<char>>>) -> Result<
    Table,
    IngestError,
> {
    if rows_fit(header, rows) {
        Ok(raw_table(header, rows))
    } else {
        Err(IngestError::FieldCountMismatch)
    }
}

/// The settings after a raw source was read: where it gave a table and the header holds two
/// names or more, the first two stand under `x` and `y`; where the header is shorter, or the
/// source gave an error, the settings are as they were.
pub open spec fn raw_hints(
    settings: Map<Seq<char>, Seq<char>>,
    header: Seq<Seq<char>>,
    rows: Seq<Seq<Seq<char>>>,
) -> Map<Seq<char>, Seq<char>> {
    if raw_result(header, rows) is Ok && header.len() >= 2 {
        settings.insert("x"@, header[0]).insert("y"@, header[1])
    } else {
        settings
    }
}

/// The table while row `done` is being read: the rows before it are in, and of row `done`
/// the fields before `fields`.
spec fn raw_partial(
    header: Seq<Seq<char>>,
    rows: Seq<Seq<Seq<char>>>,
    done: int,
    fields: int,
) -> Table {
    Table {
        names: header,
        columns: Seq::new(
            header.len(),
            |j: int|
                Seq::new(
                    if j < fields {
                        (done + 1) as nat
                    } else {
                        done as nat
                    },
                    |i: int| si_text(rows[i][j]),
                ),
        ),
    }
}

/// Builds the table of a raw source from its header and its rows, and reports the first two
/// column names as the axes where the header holds them.
pub fn raw_rows(header: &Vec<String>, rows: &Vec<Vec<String>>, options: &mut Options) -> (res:
    Result<DataFrame, IngestError>)
    ensures
        outcome(res) == raw_result(header.deep_view(), rows.deep_view()),
        final(options)@ == raw_hints(old(options)@, header.deep_view(), rows.deep_view()),
{
    let ghost h = header.deep_view();
    let ghost r = rows.deep_view();
    let mut df = DataFrame::new();
    let mut j: usize = 0;
    while j < header.len()
        invariant
            j <= header.len(),
            h == header.deep_view(),
            df@.names == h.take(j as int),
            df@.columns == Seq::new(j as nat, |k: int| Seq::<Seq<char>>::empty()),
        decreases header.len() - j,
    {
        let ghost before = df@;
        df.header.push(header[j].clone());
        df.dims.push(Vec::new());
        assert(df@.names =~= before.names.push(h[j as int]));
        assert(df@.columns =~~= before.columns.push(Seq::empty()));
        j += 1;
        assert(df@.names =~= h.take(j as int));
        assert(df@.columns =~~= Seq::new(j as nat, |k: int| Seq::<Seq<char>>::empty()));
    }
    assert(h.take(header.len() as int) == h);
    assert(df@ =~~= raw_partial(h, r, 0, 0));
    let mut i: usize = 0;
    while i < rows.len()
        invariant
            i <= rows.len(),
            h == header.deep_view(),
            r == rows.deep_view(),
            *options == *old(options),
            rows_fit(h, r.take(i as int)),
            df@ == raw_partial(h, r, i as int, 0),
        decreases rows.len() - i,
    {
        let row = &rows[i];
        if row.len() != header.len() {
            assert(r[i as int].len() != h.len());
            return Err(IngestError::FieldCountMismatch);
        }
        let mut c: usize = 0;
        while c < row.len()
            invariant
                c <= row.len(),
                i < rows.len(),
                row == &rows[i as int],
                row.len() == header.len(),
                h == header.deep_view(),
                r == rows.deep_view(),
                df@ == raw_partial(h, r, i as int, c as int),
            decreases row.len() - c,
        {
            assert(r[i as int][c as int] == row[c as int]@);
            push_val(&mut df, row[c].as_str(), c);
            c += 1;
            assert(df@ =~~= raw_partial(h, r, i as int, c as int));
        }
        assert(raw_partial(h, r, i as int, c as int) =~~= raw_partial(h, r, i + 1, 0));
        i += 1;
        assert forall|k: int| 0 <= k < r.take(i as int).len() implies (#[trigger] r.take(
            i as int,
        )[k]).len() == h.len() by {
            if k < i - 1 {
                assert(r.take(i as int)[k] == r.take(i - 1)[k]);
            }
        }
    }
    assert(r.take(rows.len() as int) == r);
    assert(df@ =~~= raw_table(h, r));
    if header.len() >= 2 {
        options.update("x".to_owned(), header[0].clone());
        options.update("y".to_owned(), header[1].clone());
    }
    Ok(df)
}

/// What reading a raw source from bytes gives: where the reader yields a header and records,
/// what they give as a raw source; else a source error, and the settings as they were.
pub open spec fn raw_ensures(
    data: Seq<u8>,
    before: Map<Seq<char>, Seq<char>>,
    res: Result<DataFrame, IngestError>,
    after: Map<Seq<char>, Seq<char>>,
) -> bool {
    match (csv_header(data), csv_records(data)) {
        (Some(header), Some(rows)) => {
            &&& outcome(res) == raw_result(header, rows)
            &&& after == raw_hints(before, header, rows)
        },
        _ => {
            &&& res matches Err(IngestError::Source(_))
            &&& after == before
        },
    }
}

/// Reads a raw source from the bytes of its delimited text.
pub fn raw(data: &[u8], options: &mut Options) -> (res: Result<DataFrame, IngestError>)
    ensures
        raw_ensures(data@, old(options)@, res, final(options)@),
{
    let header = match read_header(data) {
        Ok(header) => header,
        Err(e) => {
            return Err(IngestError::Source(e));
        },
    };
    let rows = match read_records(data) {
        Ok(rows) => rows,
        Err(e) => {
            return Err(IngestError::Source(e));
        },
    };
    raw_rows(&header, &rows, options)
}

} // verus!
