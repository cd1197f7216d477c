//! What holds of the decoder, of the registry and of the parsers on every input.
use crate::export::{even_columns, export_records, row_at};
use crate::raw::{raw_result, raw_table, rows_fit};
use crate::si::{
    captured_from, captured_letter, exponent_text, is_letter, is_numeric, is_prefix, letter_at,
    si_text,
};
use crate::source::{ExportError, IngestError};
use crate::summary::{place, place_entries, read_row, read_rows, summary_result, Progress};
use crate::table::{lemma_column_of_ensure, Table};
use crate::text::{
    find_from, is_space, join, leading_space, occurs_at, replace_char, split, split_from,
    trailing_space, trim,
};
use crate::wave::{
    apply_settings, fill_row, fill_rows, list_fits, note_entries, note_label, note_labels,
    settings_fit, wave_name, wave_plan, wave_result, Plan, Setting,
};
use vstd::prelude::*;

verus! {

/// A search gives the leftmost occurrence at or after `from`, and `None` only where there is
/// none.
pub proof fn law_find_leftmost(s: Seq<char>, pat: Seq<char>, from: int)
    requires
        0 <= from,
    ensures
        match find_from(s, pat, from) {
            Some(i) => from <= i && occurs_at(s, pat, i) && forall|k: int|
                from <= k < i ==> !occurs_at(s, pat, k),
            None => forall|k: int| from <= k ==> !occurs_at(s, pat, k),
        },
    decreases s.len() + 1 - from,
{
    if from + pat.len() > s.len() {
    } else if occurs_at(s, pat, from) {
    } else {
        law_find_leftmost(s, pat, from + 1);
    }
}

/// A position that holds an occurrence, with none between `from` and it, is what a search
/// from `from` gives.
pub proof fn law_find_is(s: Seq<char>, pat: Seq<char>, from: int, i: int)
    requires
        0 <= from <= i,
        occurs_at(s, pat, i),
        forall|k: int| from <= k < i ==> !occurs_at(s, pat, k),
    ensures
        find_from(s, pat, from) == Some(i),
    decreases i - from,
{
    if from < i {
        law_find_is(s, pat, from + 1, i);
    }
}

proof fn lemma_split_join(s: Seq<char>, pat: Seq<char>, from: int)
    requires
        0 <= from <= s.len(),
    ensures
        split_from(s, pat, from).len() >= 1,
        join(split_from(s, pat, from), pat) == s.skip(from),
    decreases s.len() - from,
{
    match find_from(s, pat, from) {
        Some(i) => {
            if pat.len() > 0 && from <= i && i + pat.len() <= s.len() {
                law_find_leftmost(s, pat, from);
                let rest = split_from(s, pat, i + pat.len());
                lemma_split_join(s, pat, i + pat.len());
                let pieces = seq![s.subrange(from, i)] + rest;
                assert(pieces.drop_first() =~= rest);
                assert(pieces[0] == s.subrange(from, i));
                assert(s.subrange(from, i) + pat + s.skip(i + pat.len()) =~= s.skip(from)) by {
                    assert(s.subrange(i, i + pat.len()) == pat);
                    assert forall|k: int| 0 <= k < pat.len() implies pat[k] == s[i + k] by {
                        assert(s.subrange(i, i + pat.len())[k] == s[i + k]);
                    }
                }
            }
        },
        None => {},
    }
}

/// Cutting a text at a pattern and joining the pieces with the pattern gives the text back.
pub proof fn law_split_join(s: Seq<char>, pat: Seq<char>)
    ensures
        split(s, pat).len() >= 1,
        join(split(s, pat), pat) == s,
{
    lemma_split_join(s, pat, 0);
    assert(s.skip(0) =~= s);
}

proof fn lemma_leading_space(s: Seq<char>)
    ensures
        0 <= leading_space(s) <= s.len(),
        forall|k: int| 0 <= k < leading_space(s) ==> is_space(#[trigger] s[k]),
        leading_space(s) < s.len() ==> !is_space(s[leading_space(s)]),
    decreases s.len(),
{
    if s.len() > 0 && is_space(s.first()) {
        let t = s.drop_first();
        lemma_leading_space(t);
        assert forall|k: int| 0 <= k < leading_space(s) implies is_space(#[trigger] s[k]) by {
            if k > 0 {
                assert(s[k] == t[k - 1]);
            }
        }
        if leading_space(s) < s.len() {
            assert(s[leading_space(s)] == t[leading_space(t)]);
        }
    }
}

proof fn lemma_trailing_space(s: Seq<char>)
    ensures
        0 <= trailing_space(s) <= s.len(),
        forall|k: int| s.len() - trailing_space(s) <= k < s.len() ==> is_space(#[trigger] s[k]),
        trailing_space(s) < s.len() ==> !is_space(s[s.len() - trailing_space(s) - 1]),
    decreases s.len(),
{
    if s.len() > 0 && is_space(s.last()) {
        let t = s.drop_last();
        lemma_trailing_space(t);
        assert forall|k: int| s.len() - trailing_space(s) <= k < s.len() implies is_space(
            #[trigger] s[k],
        ) by {
            if k < s.len() - 1 {
                assert(s[k] == t[k]);
            }
        }
        if trailing_space(s) < s.len() {
            assert(s[s.len() - trailing_space(s) - 1] == t[t.len() - trailing_space(t) - 1]);
        }
    }
}

/// Trimming takes a run of white space off each end and nothing else: the text is white
/// space, then the trimmed text, then white space, and the trimmed text neither starts nor
/// ends with white space.
pub proof fn law_trim(s: Seq<char>)
    ensures
        ({
            let a = leading_space(s);
            let b = trailing_space(s.skip(a));
            &&& 0 <= a
            &&& 0 <= b
            &&& a + b <= s.len()
            &&& trim(s) == s.subrange(a, s.len() - b)
            &&& forall|k: int| 0 <= k < a ==> is_space(#[trigger] s[k])
            &&& forall|k: int| s.len() - b <= k < s.len() ==> is_space(#[trigger] s[k])
            &&& trim(s).len() > 0 ==> !is_space(trim(s).first()) && !is_space(trim(s).last())
        }),
{
    let a = leading_space(s);
    lemma_leading_space(s);
    let t = s.skip(a);
    let b = trailing_space(t);
    lemma_trailing_space(t);
    assert(trim(s) =~= s.subrange(a, s.len() - b));
    assert forall|k: int| s.len() - b <= k < s.len() implies is_space(#[trigger] s[k]) by {
        assert(s[k] == t[k - a]);
    }
    if trim(s).len() > 0 {
        assert(trim(s).first() == s[a]);
        assert(trim(s).last() == t[t.len() - b - 1]);
    }
}

/// Replacing a character in a text that is made of two parts replaces it in each part.
pub proof fn law_replace_concat(a: Seq<char>, b: Seq<char>, c: char, with: Seq<char>)
    ensures
        replace_char(a + b, c, with) == replace_char(a, c, with) + replace_char(b, c, with),
    decreases b.len(),
{
    if b.len() == 0 {
        assert(a + b =~= a);
        assert(replace_char(a, c, with) + replace_char(b, c, with) =~= replace_char(a, c, with));
    } else {
        assert((a + b).drop_last() =~= a + b.drop_last());
        assert((a + b).last() == b.last());
        law_replace_concat(a, b.drop_last(), c, with);
        let left = replace_char(a, c, with);
        let mid = replace_char(b.drop_last(), c, with);
        if b.last() == c {
            assert((left + mid) + with =~= left + (mid + with));
        } else {
            assert((left + mid).push(b.last()) =~= left + mid.push(b.last()));
        }
    }
}

/// Replacing a character that a text does not hold leaves the text as it is.
pub proof fn law_replace_absent(s: Seq<char>, c: char, with: Seq<char>)
    requires
        !s.contains(c),
    ensures
        replace_char(s, c, with) == s,
    decreases s.len(),
{
    if s.len() > 0 {
        assert(s.last() == s[s.len() - 1]);
        assert forall|k: int| 0 <= k < s.drop_last().len() implies s.drop_last()[k] != c by {
            assert(s.drop_last()[k] == s[k]);
        }
        law_replace_absent(s.drop_last(), c, with);
        assert(s.drop_last().push(s.last()) =~= s);
    }
}

/// The decoder finds the letter at the first position where one follows a numeric character.
proof fn lemma_captured_is(s: Seq<char>, from: int, i: int)
    requires
        1 <= from <= i,
        letter_at(s, i),
        forall|k: int| from <= k < i ==> !letter_at(s, k),
    ensures
        captured_from(s, from) == Some(s[i]),
    decreases i - from,
{
    if from < i {
        lemma_captured_is(s, from + 1, i);
    }
}

/// A token made of a numeric span, a letter and any rest has that letter captured, and
/// every occurrence of it replaced by the exponent notation that stands for it.
proof fn lemma_suffixed(number: Seq<char>, letter: char, suffix: Seq<char>)
    requires
        number.len() > 0,
        forall|k: int| 0 <= k < number.len() ==> is_numeric(#[trigger] number[k]),
        is_letter(letter),
    ensures
        captured_letter(number + seq![letter] + suffix) == Some(letter),
        si_text(number + seq![letter] + suffix) == number + exponent_text(letter) + replace_char(
            suffix,
            letter,
            exponent_text(letter),
        ),
{
    let token = number + seq![letter] + suffix;
    let n = number.len() as int;
    let e = exponent_text(letter);
    assert(token[n] == letter);
    assert(token[n - 1] == number[n - 1]);
    assert forall|k: int| 1 <= k < n implies !letter_at(token, k) by {
        assert(token[k] == number[k]);
    }
    lemma_captured_is(token, 1, n);
    assert forall|k: int| 0 <= k < n implies number[k] != letter by {
        assert(is_numeric(number[k]));
    }
    law_replace_absent(number, letter, e);
    law_replace_concat(number + seq![letter], suffix, letter, e);
    law_replace_concat(number, seq![letter], letter, e);
    assert(replace_char(seq![letter], letter, e) =~= e) by {
        assert(seq![letter].drop_last() =~= Seq::<char>::empty());
        assert(replace_char(Seq::<char>::empty(), letter, e) =~= Seq::<char>::empty());
        assert(Seq::<char>::empty() + e =~= e);
    }
}

/// A token made of a numeric span, a magnitude letter of the table and any rest decodes to
/// the span, the exponent notation of the letter, and the rest with the same letter replaced
/// wherever it stands again. Where the rest does not hold the letter, it stays as it is: the
/// decoded text then reads as the number times ten to the power that the letter stands for.
pub proof fn law_suffixed_number(number: Seq<char>, prefix: char, suffix: Seq<char>)
    requires
        number.len() > 0,
        forall|k: int| 0 <= k < number.len() ==> is_numeric(#[trigger] number[k]),
        is_prefix(prefix),
    ensures
        captured_letter(number + seq![prefix] + suffix) == Some(prefix),
        si_text(number + seq![prefix] + suffix) == number + exponent_text(prefix) + replace_char(
            suffix,
            prefix,
            exponent_text(prefix),
        ),
        !suffix.contains(prefix) ==> si_text(number + seq![prefix] + suffix) == number
            + exponent_text(prefix) + suffix,
{
    lemma_suffixed(number, prefix, suffix);
    if !suffix.contains(prefix) {
        law_replace_absent(suffix, prefix, exponent_text(prefix));
    }
}

/// A token made of a numeric span, an ASCII letter outside the table and any rest decodes
/// to the span, `e1`, and the rest with the same letter replaced by `e1` wherever it stands
/// again. Where the rest does not hold the letter, the decoded text reads as ten times the
/// number.
pub proof fn law_other_letter(number: Seq<char>, letter: char, suffix: Seq<char>)
    requires
        number.len() > 0,
        forall|k: int| 0 <= k < number.len() ==> is_numeric(#[trigger] number[k]),
        is_letter(letter),
        !is_prefix(letter),
    ensures
        captured_letter(number + seq![letter] + suffix) == Some(letter),
        exponent_text(letter) == seq!['e', '1'],
        si_text(number + seq![letter] + suffix) == number + seq!['e', '1'] + replace_char(
            suffix,
            letter,
            seq!['e', '1'],
        ),
        !suffix.contains(letter) ==> si_text(number + seq![letter] + suffix) == number + seq![
            'e',
            '1',
        ] + suffix,
{
    lemma_suffixed(number, letter, suffix);
    if !suffix.contains(letter) {
        law_replace_absent(suffix, letter, exponent_text(letter));
    }
}

/// A token in which no ASCII letter directly follows a numeric character decodes to itself.
pub proof fn law_plain_token(token: Seq<char>)
    requires
        forall|j: int| !letter_at(token, j),
    ensures
        si_text(token) == token,
{
    lemma_no_capture(token, 1);
}

proof fn lemma_no_capture(s: Seq<char>, from: int)
    requires
        forall|j: int| !letter_at(s, j),
    ensures
        captured_from(s, from) is None,
    decreases s.len() - from,
{
    if from < s.len() {
        lemma_no_capture(s, from + 1);
    }
}

/// Registering a name twice is registering it once: the second call changes nothing, so the
/// names do not grow and no second column appears.
pub proof fn law_ensure_column_idempotent(t: Table, name: Seq<char>)
    ensures
        t.ensure_column(name).ensure_column(name) == t.ensure_column(name),
        t.ensure_column(name).names.contains(name),
        t.names.contains(name) ==> t.ensure_column(name) == t,
{
    let once = t.ensure_column(name);
    if !t.names.contains(name) {
        assert(once.names[t.names.len() as int] == name);
    }
}

/// Registering a name keeps what is registered: the names and columns before stay at their
/// places, every name keeps its column, and no name comes to stand twice.
pub proof fn law_ensure_column_keeps(t: Table, name: Seq<char>)
    requires
        t.wf(),
    ensures
        t.ensure_column(name).wf(),
        t.names.is_prefix_of(t.ensure_column(name).names),
        t.columns.is_prefix_of(t.ensure_column(name).columns),
        t.distinct() ==> t.ensure_column(name).distinct(),
{
    let once = t.ensure_column(name);
    assert(t.names =~= once.names.subrange(0, t.names.len() as int));
    assert(t.columns =~= once.columns.subrange(0, t.columns.len() as int));
}

/// Appending a cell changes one column only: the names stay, the other columns stay, and
/// the column grows by the cell at its end.
pub proof fn law_append_keeps(t: Table, index: int, value: Seq<char>)
    requires
        t.wf(),
        0 <= index < t.columns.len(),
    ensures
        t.append(index, value).wf(),
        t.append(index, value).names == t.names,
        t.append(index, value).columns.len() == t.columns.len(),
        t.append(index, value).columns[index] == t.columns[index].push(value),
        forall|j: int|
            0 <= j < t.columns.len() && j != index ==> t.append(index, value).columns[j]
                == t.columns[j],
{
}

/// A raw source with a header of `n` names and `r` rows of `n` fields each gives a table of
/// `n` columns under the names of the header, each column `r` cells long.
pub proof fn law_raw_shape(header: Seq<Seq<char>>, rows: Seq<Seq<Seq<char>>>)
    requires
        rows_fit(header, rows),
    ensures
        raw_result(header, rows) == Ok::<Table, IngestError>(raw_table(header, rows)),
        raw_table(header, rows).names == header,
        raw_table(header, rows).columns.len() == header.len(),
        forall|j: int|
            0 <= j < header.len() ==> (#[trigger] raw_table(header, rows).columns[j]).len()
                == rows.len(),
{
}

/// The records that an export makes of a raw table: the header as it was read, then for
/// every row of the source one record that holds the decoded text of each of its fields, in
/// the order of the source. The table of a header without names has no column, and an export
/// refuses it.
pub proof fn law_raw_round_trip(header: Seq<Seq<char>>, rows: Seq<Seq<Seq<char>>>)
    requires
        rows_fit(header, rows),
    ensures
        header.len() > 0 ==> export_records(raw_table(header, rows)) == Ok::<
            Seq<Seq<Seq<char>>>,
            ExportError,
        >(
            seq![header] + Seq::new(
                rows.len(),
                |i: int| Seq::new(header.len(), |j: int| si_text(rows[i][j])),
            ),
        ),
        header.len() == 0 ==> export_records(raw_table(header, rows)) == Err::<
            Seq<Seq<Seq<char>>>,
            ExportError,
        >(ExportError::NoColumns),
{
    let t = raw_table(header, rows);
    if header.len() > 0 {
        assert(even_columns(t));
        let made = Seq::new(t.columns[0].len(), |i: int| row_at(t, i));
        let want = Seq::new(
            rows.len(),
            |i: int| Seq::new(header.len(), |j: int| si_text(rows[i][j])),
        );
        assert(made =~~= want);
    }
}

/// A raw table has a column for every name, and no name twice exactly where the header has
/// none twice.
pub proof fn law_raw_valid(header: Seq<Seq<char>>, rows: Seq<Seq<Seq<char>>>)
    ensures
        raw_table(header, rows).wf(),
        raw_table(header, rows).distinct() <==> header.no_duplicates(),
{
}

proof fn lemma_place_valid(at: Progress, key: Seq<char>, value: Seq<char>)
    requires
        at.table.valid(),
    ensures
        match place(at, key, value) {
            Ok(next) => next.table.valid() && next.table.names.len() >= at.table.names.len(),
            Err(_) => true,
        },
{
    law_ensure_column_keeps(at.table, key);
}

proof fn lemma_place_entries_valid(at: Progress, entries: Seq<Seq<char>>)
    requires
        at.table.valid(),
    ensures
        match place_entries(at, entries) {
            Ok(next) => next.table.valid() && next.table.names.len() >= at.table.names.len(),
            Err(_) => true,
        },
    decreases entries.len(),
{
    if entries.len() > 0 {
        lemma_place_entries_valid(at, entries.drop_last());
        match place_entries(at, entries.drop_last()) {
            Ok(next) => {
                match crate::text::split_once(entries.last(), seq!['=']) {
                    Some((key, value)) => {
                        lemma_place_valid(next, key, value);
                    },
                    None => {},
                }
            },
            Err(_) => {},
        }
    }
}

proof fn lemma_read_row_valid(at: Progress, row: Seq<Seq<char>>)
    requires
        at.table.valid(),
    ensures
        match read_row(at, row) {
            Ok(next) => next.table.valid(),
            Err(_) => true,
        },
{
    if row.len() > 0 {
        if crate::text::contains(row[0], "Parameters"@) {
            match crate::text::strip_prefix(row[0], "Parameters: "@) {
                Some(rest) => {
                    lemma_place_entries_valid(
                        Progress { table: at.table, cursor: 0 },
                        crate::text::split(rest, ", "@),
                    );
                },
                None => {},
            }
        } else if row.len() >= 4 && row[3].len() > 0 {
            lemma_place_valid(at, row[2], row[3]);
        }
    }
}

proof fn lemma_read_rows_valid(rows: Seq<Seq<Seq<char>>>)
    ensures
        match read_rows(rows) {
            Ok(at) => at.table.valid(),
            Err(_) => true,
        },
    decreases rows.len(),
{
    if rows.len() > 0 {
        lemma_read_rows_valid(rows.drop_last());
        match read_rows(rows.drop_last()) {
            Ok(at) => {
                lemma_read_row_valid(at, rows.last());
            },
            Err(_) => {},
        }
    }
}

/// The table of a summary source has a column for every name, no name twice, and at least
/// the two columns that are the axes.
pub proof fn law_summary_valid(rows: Seq<Seq<Seq<char>>>)
    ensures
        match summary_result(rows) {
            Ok(table) => table.valid() && table.names.len() >= 2,
            Err(_) => true,
        },
{
    lemma_read_rows_valid(rows);
}

/// A plan is sound: its table is valid and starts with the column `x`, and the dependent
/// column and every setting name a registered column.
pub open spec fn plan_sound(plan: Plan) -> bool {
    &&& plan.table.valid()
    &&& plan.table.names.len() > 0
    &&& plan.table.names[0] == "x"@
    &&& 0 <= plan.y < plan.table.names.len()
    &&& settings_fit(plan.settings, plan.table.names.len() as int)
}

proof fn lemma_note_entries_sound(table: Table, entries: Seq<Seq<char>>)
    requires
        table.valid(),
    ensures
        match note_entries(table, entries) {
            Ok((after, list)) => {
                &&& after.valid()
                &&& table.names.is_prefix_of(after.names)
                &&& list_fits(list, after.names.len() as int)
            },
            Err(_) => true,
        },
    decreases entries.len(),
{
    if entries.len() > 0 {
        lemma_note_entries_sound(table, entries.drop_last());
        match note_entries(table, entries.drop_last()) {
            Ok((before, list)) => {
                match crate::text::split_once(entries.last(), seq!['=']) {
                    Some((key, value)) => {
                        law_ensure_column_keeps(before, key);
                        lemma_column_of_ensure(before, key);
                        let after = before.ensure_column(key);
                        let grown = list.push(Setting { column: before.column_of(key), value });
                        assert forall|k: int| 0 <= k < grown.len() implies 0 <= (
                        #[trigger] grown[k]).column < after.names.len() by {
                            if k < list.len() {
                                assert(grown[k] == list[k]);
                            }
                        }
                    },
                    None => {},
                }
            },
            Err(_) => {},
        }
    }
}

proof fn lemma_note_label_sound(plan: Plan, label: Seq<char>)
    requires
        plan_sound(plan),
    ensures
        match note_label(plan, label) {
            Ok(after) => plan_sound(after),
            Err(_) => true,
        },
{
    if !crate::text::ends_with(label, 'Y') {
        match crate::wave::enclosed(label) {
            Some(segment) => {
                let entries = crate::text::split(segment, seq![',']);
                lemma_note_entries_sound(plan.table, entries);
                match note_entries(plan.table, entries) {
                    Ok((table, list)) => {
                        let settings = plan.settings.push(list);
                        assert(table.names[0] == plan.table.names[0]);
                        assert forall|k: int| 0 <= k < settings.len() implies list_fits(
                            #[trigger] settings[k],
                            table.names.len() as int,
                        ) by {
                            if k < plan.settings.len() {
                                assert(settings[k] == plan.settings[k]);
                                assert(list_fits(plan.settings[k], plan.table.names.len() as int));
                            }
                        }
                    },
                    Err(_) => {},
                }
            },
            None => {},
        }
    }
}

proof fn lemma_note_labels_sound(plan: Plan, labels: Seq<Seq<char>>)
    requires
        plan_sound(plan),
    ensures
        match note_labels(plan, labels) {
            Ok(after) => plan_sound(after),
            Err(_) => true,
        },
    decreases labels.len(),
{
    if labels.len() > 0 {
        lemma_note_labels_sound(plan, labels.drop_last());
        match note_labels(plan, labels.drop_last()) {
            Ok(before) => {
                lemma_note_label_sound(before, labels.last());
            },
            Err(_) => {},
        }
    }
}

/// The plan of a wave header is sound.
pub proof fn law_wave_plan_sound(header: Seq<Seq<char>>)
    ensures
        match wave_plan(header) {
            Ok(plan) => plan_sound(plan),
            Err(_) => true,
        },
{
    match wave_name(header) {
        Ok(name) => {
            let first = Table::empty().ensure_column("x"@);
            let table = first.ensure_column(name);
            assert(first.names[0] == "x"@);
            law_ensure_column_keeps(Table::empty(), "x"@);
            law_ensure_column_keeps(first, name);
            lemma_column_of_ensure(first, name);
            lemma_column_of_ensure(table, name);
            assert(table.names[0] == first.names[0]);
            lemma_note_labels_sound(
                Plan { table, y: table.column_of(name), settings: Seq::empty() },
                header,
            );
        },
        Err(_) => {},
    }
}

proof fn lemma_apply_keeps(table: Table, list: Seq<Setting>)
    requires
        table.wf(),
        list_fits(list, table.names.len() as int),
    ensures
        apply_settings(table, list).wf(),
        apply_settings(table, list).names == table.names,
    decreases list.len(),
{
    if list.len() > 0 {
        assert forall|k: int| 0 <= k < list.drop_last().len() implies 0 <= (
        #[trigger] list.drop_last()[k]).column < table.names.len() by {
            assert(list.drop_last()[k] == list[k]);
        }
        lemma_apply_keeps(table, list.drop_last());
        assert(0 <= list[list.len() - 1].column < table.names.len());
    }
}

proof fn lemma_fill_row_keeps(plan: Plan, table: Table, row: Seq<Seq<char>>)
    requires
        plan_sound(plan),
        table.wf(),
        table.names == plan.table.names,
    ensures
        match fill_row(plan, table, row) {
            Ok(after) => after.wf() && after.names == table.names,
            Err(_) => true,
        },
    decreases row.len(),
{
    if row.len() > 0 {
        lemma_fill_row_keeps(plan, table, row.drop_last());
        match fill_row(plan, table, row.drop_last()) {
            Ok(before) => {
                let c = row.len() - 1;
                if c % 2 != 0 && c / 2 < plan.settings.len() {
                    let with_y = before.append(plan.y, si_text(row.last()));
                    assert(list_fits(plan.settings[c / 2], plan.table.names.len() as int));
                    lemma_apply_keeps(with_y, plan.settings[c / 2]);
                }
            },
            Err(_) => {},
        }
    }
}

proof fn lemma_fill_rows_keeps(plan: Plan, table: Table, rows: Seq<Seq<Seq<char>>>)
    requires
        plan_sound(plan),
        table.wf(),
        table.names == plan.table.names,
    ensures
        match fill_rows(plan, table, rows) {
            Ok(after) => after.wf() && after.names == table.names,
            Err(_) => true,
        },
    decreases rows.len(),
{
    if rows.len() > 0 {
        lemma_fill_rows_keeps(plan, table, rows.drop_last());
        match fill_rows(plan, table, rows.drop_last()) {
            Ok(before) => {
                lemma_fill_row_keeps(plan, before, rows.last());
            },
            Err(_) => {},
        }
    }
}

/// The table of a wave source has a column for every name and no name twice; its first
/// column is `x`; and its names are those that the header registered, whatever the rows hold.
pub proof fn law_wave_valid(header: Seq<Seq<char>>, rows: Seq<Seq<Seq<char>>>)
    ensures
        match wave_result(header, rows) {
            Ok(table) => {
                &&& table.valid()
                &&& table.names.len() > 0
                &&& table.names[0] == "x"@
                &&& wave_plan(header) matches Ok(plan) && table.names == plan.table.names
            },
            Err(_) => true,
        },
{
    law_wave_plan_sound(header);
    match wave_plan(header) {
        Ok(plan) => {
            lemma_fill_rows_keeps(plan, plan.table, rows);
        },
        Err(_) => {},
    }
}

} // verus!
