//! The wave layout: the header holds one label per source column, the data fields come in
//! pairs of an independent and a dependent value, and the labels carry the settings of the
//! sweep that each pair was taken at.
use crate::options::Options;
use crate::si::si_text;
use crate::source::{csv_header, csv_records, outcome, read_header, read_records, IngestError};
use crate::table::{lemma_column_of_ensure, push_val, DataFrame, Table};
use crate::text::{
    chars_of, cut, cut_once, ends_with, find_from, find_in, find_last, last_is, last_position,
    split, split_once,
};
use vstd::prelude::*;

verus! {

/// One setting of a sweep: the column that its key has, and the value as the label gives it.
pub struct Setting {
    pub column: int,
    pub value: Seq<char>,
}

/// What the header of a wave source fixes before any row is read: the registered columns,
/// the position of the dependent column, and for each label that carries settings, in the
/// order of the labels, its settings.
pub struct Plan {
    pub table: Table,
    pub y: int,
    pub settings: Seq<Seq<Setting>>,
}

/// The name of the dependent variable: the header must hold two labels, each with a space,
/// and the name is what stands before the first space of the second.
pub open spec fn wave_name(header: Seq<Seq<char>>) -> Result<Seq<char>, IngestError> {
    if header.len() < 2 {
        Err(IngestError::MissingField)
    } else if split_once(header[0], seq![' ']) is None {
        Err(IngestError::MissingDelimiter)
    } else {
        match split_once(header[1], seq![' ']) {
            Some((name, _)) => Ok(name),
            None => Err(IngestError::MissingDelimiter),
        }
    }
}

/// The settings segment of a label: what stands between the last opening parenthesis and
/// the first closing one behind it.
pub open spec fn enclosed(label: Seq<char>) -> Option<Seq<char>> {
    match last_position(label, '(') {
        Some(open) => match find_from(label, seq![')'], open + 1) {
            Some(close) => Some(label.subrange(open + 1, close)),
            None => None,
        },
        None => None,
    }
}

/// Notes one entry of a settings segment, which has the form `key=value`: the key is
/// registered, and the value is kept for the key's column.
pub open spec fn note_entry(table: Table, entry: Seq<char>) -> Result<
    (Table, Setting),
    IngestError,
> {
    match split_once(entry, seq!['=']) {
        Some((key, value)) => Ok(
            (table.ensure_column(key), Setting { column: table.column_of(key), value }),
        ),
        None => Err(IngestError::MissingDelimiter),
    }
}

/// Notes the entries of one settings segment in order, up to the first that fails.
pub open spec fn note_entries(table: Table, entries: Seq<Seq<char>>) -> Result<
    (Table, Seq<Setting>),
    IngestError,
>
    decreases entries.len(),
{
    if entries.len() == 0 {
        Ok((table, Seq::empty()))
    } else {
        match note_entries(table, entries.drop_last()) {
            Ok((before, list)) => match note_entry(before, entries.last()) {
                Ok((after, setting)) => Ok((after, list.push(setting))),
                Err(e) => Err(e),
            },
            Err(e) => Err(e),
        }
    }
}

/// Notes one label. A label that ends in `Y` carries nothing. Any other label must hold a
/// settings segment, which is cut at each comma into entries.
pub open spec fn note_label(plan: Plan, label: Seq<char>) -> Result<Plan, IngestError> {
    if ends_with(label, 'Y') {
        Ok(plan)
    } else {
        match enclosed(label) {
            Some(segment) => match note_entries(plan.table, split(segment, seq![','])) {
                Ok((table, list)) => Ok(
                    Plan { table, y: plan.y, settings: plan.settings.push(list) },
                ),
                Err(e) => Err(e),
            },
            None => Err(IngestError::MissingDelimiter),
        }
    }
}

/// Notes the labels in order, up to the first that fails.
pub open spec fn note_labels(plan: Plan, labels: Seq<Seq<char>>) -> Result<Plan, IngestError>
    decreases labels.len(),
{
    if labels.len() == 0 {
        Ok(plan)
    } else {
        match note_labels(plan, labels.drop_last()) {
            Ok(before) => note_label(before, labels.last()),
            Err(e) => Err(e),
        }
    }
}

/// The plan that a header gives: the column `x` comes first, the dependent column second,
/// then the columns of the settings as the labels name them.
pub open spec fn wave_plan(header: Seq<Seq<char>>) -> Result<Plan, IngestError> {
    match wave_name(header) {
        Ok(name) => {
            let table = Table::empty().ensure_column("x"@).ensure_column(name);
            note_labels(Plan { table, y: table.column_of(name), settings: Seq::empty() }, header)
        },
        Err(e) => Err(e),
    }
}

/// The table after each setting of the list, in order, gave its decoded value to its column.
pub open spec fn apply_settings(table: Table, list: Seq<Setting>) -> Table
    decreases list.len(),
{
    if list.len() == 0 {
        table
    } else {
        apply_settings(table, list.drop_last()).append(
            list.last().column,
            si_text(list.last().value),
        )
    }
}

/// Reads the field at position `c` of a row. A field at an even position goes to the first
/// column. A field at an odd position goes to the dependent column, and closes the pair
/// number `c / 2`, whose settings then give their values; a pair without settings is an
/// error.
pub open spec fn fill_field(plan: Plan, table: Table, c: int, field: Seq<char>) -> Result<
    Table,
    IngestError,
> {
    if c % 2 == 0 {
        Ok(table.append(0, si_text(field)))
    } else if c / 2 < plan.settings.len() {
        Ok(apply_settings(table.append(plan.y, si_text(field)), plan.settings[c / 2]))
    } else {
        Err(IngestError::FieldCountMismatch)
    }
}

/// Reads the fields of a row in order, up to the first that fails.
pub open spec fn fill_row(plan: Plan, table: Table, row: Seq<Seq<char>>) -> Result<
    Table,
    IngestError,
>
    decreases row.len(),
{
    if row.len() == 0 {
        Ok(table)
    } else {
        match fill_row(plan, table, row.drop_last()) {
            Ok(before) => fill_field(plan, before, row.len() - 1, row.last()),
            Err(e) => Err(e),
        }
    }
}

/// Reads the rows in order, up to the first that fails.
pub open spec fn fill_rows(plan: Plan, table: Table, rows: Seq<Seq<Seq<char>>>) -> Result<
    Table,
    IngestError,
>
    decreases rows.len(),
{
    if rows.len() == 0 {
        Ok(table)
    } else {
        match fill_rows(plan, table, rows.drop_last()) {
            Ok(before) => fill_row(plan, before, rows.last()),
            Err(e) => Err(e),
        }
    }
}

/// What a wave source gives: the table that its rows fill under the plan of its header, or
/// the first error.
pub open spec fn wave_result(header: Seq<Seq<char>>, rows: Seq<Seq<Seq<char>>>) -> Result<
    Table,
    IngestError,
> {
    match wave_plan(header) {
        Ok(plan) => fill_rows(plan, plan.table, rows),
        Err(e) => Err(e),
    }
}

/// The settings after a wave source was read: once the header has given the name of the
/// dependent variable, `x` stands under `x` and that name under `y`, whatever follows.
pub open spec fn wave_hints(
    settings: Map<Seq<char>, Seq<char>>,
    header: Seq<Seq<char>>,
) -> Map<Seq<char>, Seq<char>> {
    match wave_name(header) {
        Ok(name) => settings.insert("x"@, "x"@).insert("y"@, name),
        Err(_) => settings,
    }
}

/// Every setting of the list names a column below `n`.
pub open spec fn list_fits(list: Seq<Setting>, n: int) -> bool {
    forall|k: int| 0 <= k < list.len() ==> 0 <= (#[trigger] list[k]).column < n
}

/// Every setting of every list names a column below `n`.
pub open spec fn settings_fit(settings: Seq<Seq<Setting>>, n: int) -> bool {
    forall|k: int| 0 <= k < settings.len() ==> list_fits(#[trigger] settings[k], n)
}

/// A setting as the parser keeps it.
pub struct Sweep {
    pub column: usize,
    pub value: String,
}

impl DeepView for Sweep {
    type V = Setting;

    open spec fn deep_view(&self) -> Setting {
        Setting { column: self.column as int, value: self.value@ }
    }
}

/// Once a start of the entries has failed, all of them fail in the same way.
proof fn lemma_entries_stop(table: Table, entries: Seq<Seq<char>>, k: int)
    requires
        0 <= k <= entries.len(),
        note_entries(table, entries.take(k)) is Err,
    ensures
        note_entries(table, entries) == note_entries(table, entries.take(k)),
    decreases entries.len() - k,
{
    if k < entries.len() {
        assert(entries.take(k + 1).drop_last() == entries.take(k));
        lemma_entries_stop(table, entries, k + 1);
    } else {
        assert(entries.take(k) == entries);
    }
}

/// Once a start of the labels has failed, all of them fail in the same way.
proof fn lemma_labels_stop(plan: Plan, labels: Seq<Seq<char>>, k: int)
    requires
        0 <= k <= labels.len(),
        note_labels(plan, labels.take(k)) is Err,
    ensures
        note_labels(plan, labels) == note_labels(plan, labels.take(k)),
    decreases labels.len() - k,
{
    if k < labels.len() {
        assert(labels.take(k + 1).drop_last() == labels.take(k));
        lemma_labels_stop(plan, labels, k + 1);
    } else {
        assert(labels.take(k) == labels);
    }
}

/// Once a start of a row has failed, the whole row fails in the same way.
proof fn lemma_row_stop(plan: Plan, table: Table, row: Seq<Seq<char>>, k: int)
    requires
        0 <= k <= row.len(),
        fill_row(plan, table, row.take(k)) is Err,
    ensures
        fill_row(plan, table, row) == fill_row(plan, table, row.take(k)),
    decreases row.len() - k,
{
    if k < row.len() {
        assert(row.take(k + 1).drop_last() == row.take(k));
        lemma_row_stop(plan, table, row, k + 1);
    } else {
        assert(row.take(k) == row);
    }
}

/// Once a start of the rows has failed, all of them fail in the same way.
proof fn lemma_rows_stop(plan: Plan, table: Table, rows: Seq<Seq<Seq<char>>>, k: int)
    requires
        0 <= k <= rows.len(),
        fill_rows(plan, table, rows.take(k)) is Err,
    ensures
        fill_rows(plan, table, rows) == fill_rows(plan, table, rows.take(k)),
    decreases rows.len() - k,
{
    if k < rows.len() {
        assert(rows.take(k + 1).drop_last() == rows.take(k));
        lemma_rows_stop(plan, table, rows, k + 1);
    } else {
        assert(rows.take(k) == rows);
    }
}

/// Finds the name of the dependent variable in the header.
pub fn dependent_name(header: &Vec<String>) -> (res: Result<String, IngestError>)
    ensures
        match res {
            Ok(name) => wave_name(header.deep_view()) == Ok::<Seq<char>, IngestError>(name@),
            Err(e) => wave_name(header.deep_view()) == Err::<Seq<char>, IngestError>(e),
        },
{
    proof {
        reveal_strlit(" ");
        assert(" "@ =~= seq![' ']);
    }
    if header.len() < 2 {
        return Err(IngestError::MissingField);
    }
    if cut_once(header[0].as_str(), " ").is_none() {
        return Err(IngestError::MissingDelimiter);
    }
    match cut_once(header[1].as_str(), " ") {
        Some((name, _)) => Ok(name),
        None => Err(IngestError::MissingDelimiter),
    }
}

/// Takes the settings segment out of a label.
pub fn settings_segment(label: &str) -> (res: Option<String>)
    ensures
        match res {
            Some(segment) => enclosed(label@) == Some(segment@),
            None => enclosed(label@) is None,
        },
{
    let chars = chars_of(label);
    let close = chars_of(")");
    proof {
        reveal_strlit(")");
        assert(")"@ =~= seq![')']);
    }
    match find_last(&chars, '(') {
        Some(open) => match find_in(&chars, &close, open + 1) {
            Some(end) => Some(label.substring_char(open + 1, end).to_owned()),
            None => None,
        },
        None => None,
    }
}

/// Registers the keys of the entries and keeps their values.
fn note_all(df: &mut DataFrame, entries: &Vec<String>) -> (res: Result<Vec<Sweep>, IngestError>)
    requires
        old(df)@.wf(),
    ensures
        match res {
            Ok(list) => {
                &&& note_entries(old(df)@, entries.deep_view()) == Ok::<
                    (Table, Seq<Setting>),
                    IngestError,
                >((final(df)@, list.deep_view()))
                &&& final(df)@.wf()
                &&& final(df)@.names.len() >= old(df)@.names.len()
                &&& list_fits(list.deep_view(), final(df)@.names.len() as int)
            },
            Err(e) => note_entries(old(df)@, entries.deep_view()) == Err::<
                (Table, Seq<Setting>),
                IngestError,
            >(e),
        },
{
    let ghost start = df@;
    let ghost all = entries.deep_view();
    let mut list: Vec<Sweep> = Vec::new();
    let mut k: usize = 0;
    proof {
        reveal_strlit("=");
        assert("="@ =~= seq!['=']);
        assert(list.deep_view() =~= Seq::empty());
    }
    while k < entries.len()
        invariant
            k <= entries.len(),
            all == entries.deep_view(),
            start == old(df)@,
            "="@ == seq!['='],
            df@.wf(),
            df@.names.len() >= start.names.len(),
            list_fits(list.deep_view(), df@.names.len() as int),
            note_entries(start, all.take(k as int)) == Ok::<(Table, Seq<Setting>), IngestError>(
                (df@, list.deep_view()),
            ),
        decreases entries.len() - k,
    {
        proof {
            let upto = all.take(k + 1);
            assert(upto.drop_last() == all.take(k as int));
            assert(upto.last() == entries[k as int]@);
            if note_entries(start, upto) is Err {
                lemma_entries_stop(start, all, k + 1);
            }
        }
        match cut_once(entries[k].as_str(), "=") {
            Some((key, value)) => {
                let ghost before = list.deep_view();
                let column = df.column(key.as_str());
                list.push(Sweep { column, value });
                assert(list.deep_view() =~= before.push(
                    Setting { column: column as int, value: value@ },
                ));
            },
            None => {
                return Err(IngestError::MissingDelimiter);
            },
        }
        k += 1;
    }
    assert(all.take(entries.len() as int) == all);
    Ok(list)
}

/// The plan that the parser holds with the frame: the position of the dependent column and
/// the settings of each pair.
spec fn plan_of(df: DataFrame, y: usize, settings: Vec<Vec<Sweep>>) -> Plan {
    Plan { table: df@, y: y as int, settings: settings.deep_view() }
}

/// Registers the settings of all labels and keeps their values, label by label.
fn note_header(df: &mut DataFrame, y: usize, header: &Vec<String>) -> (res: Result<
    Vec<Vec<Sweep>>,
    IngestError,
>)
    requires
        old(df)@.wf(),
    ensures
        match res {
            Ok(settings) => {
                &&& note_labels(
                    Plan { table: old(df)@, y: y as int, settings: Seq::empty() },
                    header.deep_view(),
                ) == Ok::<Plan, IngestError>(plan_of(*final(df), y, settings))
                &&& final(df)@.wf()
                &&& final(df)@.names.len() >= old(df)@.names.len()
                &&& settings_fit(settings.deep_view(), final(df)@.names.len() as int)
            },
            Err(e) => note_labels(
                Plan { table: old(df)@, y: y as int, settings: Seq::empty() },
                header.deep_view(),
            ) == Err::<Plan, IngestError>(e),
        },
{
    let ghost start = Plan { table: df@, y: y as int, settings: Seq::empty() };
    let ghost all = header.deep_view();
    let mut settings: Vec<Vec<Sweep>> = Vec::new();
    let mut i: usize = 0;
    proof {
        reveal_strlit(",");
        assert(","@ =~= seq![',']);
        assert(settings.deep_view() =~= Seq::empty());
    }
    while i < header.len()
        invariant
            i <= header.len(),
            all == header.deep_view(),
            start == (Plan { table: old(df)@, y: y as int, settings: Seq::empty() }),
            ","@ == seq![','],
            df@.wf(),
            df@.names.len() >= start.table.names.len(),
            settings_fit(settings.deep_view(), df@.names.len() as int),
            note_labels(start, all.take(i as int)) == Ok::<Plan, IngestError>(
                plan_of(*df, y, settings),
            ),
        decreases header.len() - i,
    {
        proof {
            let upto = all.take(i + 1);
            assert(upto.drop_last() == all.take(i as int));
            assert(upto.last() == header[i as int]@);
            if note_labels(start, upto) is Err {
                lemma_labels_stop(start, all, i + 1);
            }
        }
        let label = header[i].as_str();
        if !last_is(label, 'Y') {
            match settings_segment(label) {
                Some(segment) => {
                    let entries = cut(segment.as_str(), ",");
                    match note_all(df, &entries) {
                        Ok(list) => {
                            let ghost before = settings.deep_view();
                            settings.push(list);
                            assert(settings.deep_view() =~= before.push(list.deep_view()));
                        },
                        Err(e) => {
                            return Err(e);
                        },
                    }
                },
                None => {
                    return Err(IngestError::MissingDelimiter);
                },
            }
        }
        i += 1;
    }
    assert(all.take(header.len() as int) == all);
    Ok(settings)
}

/// Gives each setting's decoded value to its column.
fn apply(df: &mut DataFrame, list: &Vec<Sweep>)
    requires
        old(df)@.wf(),
        list_fits(list.deep_view(), old(df)@.names.len() as int),
    ensures
        final(df)@ == apply_settings(old(df)@, list.deep_view()),
        final(df)@.wf(),
        final(df)@.names == old(df)@.names,
{
    let ghost all = list.deep_view();
    let mut k: usize = 0;
    while k < list.len()
        invariant
            k <= list.len(),
            all == list.deep_view(),
            list_fits(all, df@.names.len() as int),
            df@.wf(),
            df@.names == old(df)@.names,
            df@ == apply_settings(old(df)@, all.take(k as int)),
        decreases list.len() - k,
    {
        proof {
            let upto = all.take(k + 1);
            assert(upto.drop_last() == all.take(k as int));
            assert(upto.last() == list[k as int].deep_view());
            assert(all[k as int].column < df@.names.len());
        }
        push_val(df, list[k].value.as_str(), list[k].column);
        k += 1;
    }
    assert(all.take(list.len() as int) == all);
}

/// Reads the fields of one row into the frame.
fn fill_one(df: &mut DataFrame, y: usize, settings: &Vec<Vec<Sweep>>, row: &Vec<String>) -> (res:
    Result<(), IngestError>)
    requires
        old(df)@.wf(),
        0 < old(df)@.names.len(),
        y < old(df)@.names.len(),
        settings_fit(settings.deep_view(), old(df)@.names.len() as int),
    ensures
        match res {
            Ok(_) => {
                &&& fill_row(plan_of(*old(df), y, *settings), old(df)@, row.deep_view()) == Ok::<
                    Table,
                    IngestError,
                >(final(df)@)
                &&& final(df)@.wf()
                &&& final(df)@.names == old(df)@.names
            },
            Err(e) => fill_row(plan_of(*old(df), y, *settings), old(df)@, row.deep_view())
                == Err::<Table, IngestError>(e),
        },
{
    let ghost plan = plan_of(*df, y, *settings);
    let ghost start = df@;
    let ghost all = row.deep_view();
    let mut c: usize = 0;
    while c < row.len()
        invariant
            c <= row.len(),
            all == row.deep_view(),
            start == old(df)@,
            plan == plan_of(*old(df), y, *settings),
            df@.wf(),
            df@.names == start.names,
            0 < start.names.len(),
            y < start.names.len(),
            settings_fit(settings.deep_view(), start.names.len() as int),
            fill_row(plan, start, all.take(c as int)) == Ok::<Table, IngestError>(df@),
        decreases row.len() - c,
    {
        proof {
            let upto = all.take(c + 1);
            assert(upto.drop_last() == all.take(c as int));
            assert(upto.last() == row[c as int]@);
            if fill_row(plan, start, upto) is Err {
                lemma_row_stop(plan, start, all, c + 1);
            }
        }
        if c % 2 == 0 {
            push_val(df, row[c].as_str(), 0);
        } else {
            push_val(df, row[c].as_str(), y);
            let pair = c / 2;
            if pair < settings.len() {
                assert(settings.deep_view()[pair as int] == settings[pair as int].deep_view());
                apply(df, &settings[pair]);
            } else {
                return Err(IngestError::FieldCountMismatch);
            }
        }
        c += 1;
    }
    assert(all.take(row.len() as int) == all);
    Ok(())
}

/// Builds the table of a wave source from its header and its rows, and reports `x` and the
/// name of the dependent variable as the axes.
pub fn wave_rows(header: &Vec<String>, rows: &Vec<Vec<String>>, options: &mut Options) -> (res:
    Result<DataFrame, IngestError>)
    ensures
        outcome(res) == wave_result(header.deep_view(), rows.deep_view()),
        final(options)@ == wave_hints(old(options)@, header.deep_view()),
{
    let name = match dependent_name(header) {
        Ok(name) => name,
        Err(e) => {
            return Err(e);
        },
    };
    options.update("x".to_owned(), "x".to_owned());
    options.update("y".to_owned(), name.clone());
    let mut df = DataFrame::new();
    df.ensure_column("x");
    let y = df.column(name.as_str());
    proof {
        lemma_column_of_ensure(Table::empty().ensure_column("x"@), name@);
    }
    let settings = match note_header(&mut df, y, header) {
        Ok(settings) => settings,
        Err(e) => {
            return Err(e);
        },
    };
    let ghost plan = plan_of(df, y, settings);
    let ghost start = df@;
    let ghost all = rows.deep_view();
    let mut i: usize = 0;
    while i < rows.len()
        invariant
            i <= rows.len(),
            all == rows.deep_view(),
            plan == (Plan { table: start, y: y as int, settings: settings.deep_view() }),
            wave_plan(header.deep_view()) == Ok::<Plan, IngestError>(plan),
            options@ == wave_hints(old(options)@, header.deep_view()),
            df@.wf(),
            df@.names == start.names,
            0 < start.names.len(),
            y < start.names.len(),
            settings_fit(settings.deep_view(), start.names.len() as int),
            fill_rows(plan, start, all.take(i as int)) == Ok::<Table, IngestError>(df@),
        decreases rows.len() - i,
    {
        proof {
            let upto = all.take(i + 1);
            assert(upto.drop_last() == all.take(i as int));
            assert(upto.last() == rows[i as int].deep_view());
            if fill_rows(plan, start, upto) is Err {
                lemma_rows_stop(plan, start, all, i + 1);
            }
            lemma_fill_row_plan(plan, plan_of(df, y, settings), df@, rows[i as int].deep_view());
        }
        match fill_one(&mut df, y, &settings, &rows[i]) {
            Ok(_) => {},
            Err(e) => {
                return Err(e);
            },
        }
        i += 1;
    }
    assert(all.take(rows.len() as int) == all);
    Ok(df)
}

/// Filling a row looks only at the settings of the plan and at the dependent column.
proof fn lemma_fill_row_plan(p: Plan, q: Plan, table: Table, row: Seq<Seq<char>>)
    requires
        p.y == q.y,
        p.settings == q.settings,
    ensures
        fill_row(p, table, row) == fill_row(q, table, row),
    decreases row.len(),
{
    if row.len() > 0 {
        lemma_fill_row_plan(p, q, table, row.drop_last());
    }
}

/// What reading a wave source from bytes gives: where the reader yields a header and records,
/// what they give as a wave source; else a source error, and the settings as they were.
pub open spec fn wave_ensures(
    data: Seq<u8>,
    before: Map<Seq<char>, Seq<char>>,
    res: Result<DataFrame, IngestError>,
    after: Map<Seq<char>, Seq<char>>,
) -> bool {
    match (csv_header(data), csv_records(data)) {
        (Some(header), Some(rows)) => {
            &&& outcome(res) == wave_result(header, rows)
            &&& after == wave_hints(before, header)
        },
        _ => {
            &&& res matches Err(IngestError::Source(_))
            &&& after == before
        },
    }
}

/// Reads a wave source from the bytes of its delimited text.
pub fn wave(data: &[u8], options: &mut Options) -> (res: Result<DataFrame, IngestError>)
    ensures
        wave_ensures(data@, old(options)@, res, final(options)@),
{
    let header = match read_header(data) {
        Ok(header) => header,
        Err(e) => {
            return Err(IngestError::Source(e));
        },
    };
    let rows = match read_records(data) {
        Ok(rows) => rows,
        Err(e) => {
            return Err(IngestError::Source(e));
        },
    };
    wave_rows(&header, &rows, options)
}

} // verus!
