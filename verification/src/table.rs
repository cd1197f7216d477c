//! The column registry: an ordered list of column names beside one growable column of
//! decoded cells per name. A cell is the text of a decimal number, as the decoder wrote it.
use crate::si::{si_convert, si_text};
use vstd::prelude::*;

verus! {

/// What a `DataFrame` holds, as mathematical sequences: the names in registration order and,
/// at the same positions, the cells of each column in the order they were appended.
#[verifier::ext_equal]
pub struct Table {
    pub names: Seq<Seq<char>>,
    pub columns: Seq<Seq<Seq<char>>>,
}

/// The first position from `from` on at which `name` stands in `names`.
pub open spec fn position_from(names: Seq<Seq<char>>, name: Seq<char>, from: int) -> Option<int>
    decreases names.len() - from,
{
    if from < 0 || from >= names.len() {
        None
    } else if names[from] == name {
        Some(from)
    } else {
        position_from(names, name, from + 1)
    }
}

impl Table {
    /// The table without columns.
    pub open spec fn empty() -> Table {
        Table { names: Seq::empty(), columns: Seq::empty() }
    }

    /// Every name has its column.
    pub open spec fn wf(self) -> bool {
        self.names.len() == self.columns.len()
    }

    /// No name is registered twice.
    pub open spec fn distinct(self) -> bool {
        self.names.no_duplicates()
    }

    /// Every name has its column and no name is registered twice.
    pub open spec fn valid(self) -> bool {
        self.wf() && self.distinct()
    }

    /// The position of the column called `name`, the first if several are.
    pub open spec fn position(self, name: Seq<char>) -> Option<int> {
        position_from(self.names, name, 0)
    }

    /// The position of the column called `name`, or the position that it would be registered
    /// at.
    pub open spec fn column_of(self, name: Seq<char>) -> int {
        match self.position(name) {
            Some(i) => i,
            None => self.names.len() as int,
        }
    }

    /// The table with a column called `name`: the same table where it has one, else the table
    /// with the name and an empty column added at the end.
    pub open spec fn ensure_column(self, name: Seq<char>) -> Table {
        if self.names.contains(name) {
            self
        } else {
            Table { names: self.names.push(name), columns: self.columns.push(Seq::empty()) }
        }
    }

    /// The table after `value` was appended to the column at `index`.
    pub open spec fn append(self, index: int, value: Seq<char>) -> Table {
        Table {
            names: self.names,
            columns: self.columns.update(index, self.columns[index].push(value)),
        }
    }
}

/// `position_from` gives the first position at or after `from` that holds the name, and
/// `None` only where no such position holds it.
pub proof fn lemma_position_from(names: Seq<Seq<char>>, name: Seq<char>, from: int)
    requires
        0 <= from,
    ensures
        match position_from(names, name, from) {
            Some(i) => from <= i < names.len() && names[i] == name && forall|k: int|
                from <= k < i ==> names[k] != name,
            None => forall|k: int| from <= k < names.len() ==> names[k] != name,
        },
    decreases names.len() - from,
{
    if from < names.len() && names[from] != name {
        lemma_position_from(names, name, from + 1);
    }
}

/// The position of a name is fixed by any place that holds it with none before that does.
pub proof fn lemma_position_is(names: Seq<Seq<char>>, name: Seq<char>, from: int, i: int)
    requires
        0 <= from <= i < names.len(),
        names[i] == name,
        forall|k: int| from <= k < i ==> names[k] != name,
    ensures
        position_from(names, name, from) == Some(i),
    decreases i - from,
{
    if from < i {
        lemma_position_is(names, name, from + 1, i);
    }
}

/// After a name was registered its column stands where `column_of` said it would.
pub proof fn lemma_column_of_ensure(t: Table, name: Seq<char>)
    ensures
        t.ensure_column(name).position(name) == Some(t.column_of(name)),
        t.ensure_column(name).column_of(name) == t.column_of(name),
        0 <= t.column_of(name) < t.ensure_column(name).names.len(),
{
    lemma_position_from(t.names, name, 0);
    lemma_position_contains(t, name);
    if !t.names.contains(name) {
        let grown = t.names.push(name);
        assert forall|k: int| 0 <= k < t.names.len() implies grown[k] != name by {
            assert(grown[k] == t.names[k]);
        }
        lemma_position_is(grown, name, 0, t.names.len() as int);
    }
}

/// A name has a position exactly where the names contain it.
pub proof fn lemma_position_contains(t: Table, name: Seq<char>)
    ensures
        t.position(name) is Some <==> t.names.contains(name),
{
    lemma_position_from(t.names, name, 0);
    if t.names.contains(name) {
        let i = choose|i: int| 0 <= i < t.names.len() && t.names[i] == name;
        assert(t.names[i] == name);
    }
}

/// The column-oriented result of one ingestion: `header` holds the column names and `dims`
/// holds, at the same positions, the cells of each column.
#[derive(Debug)]
pub struct DataFrame {
    pub header: Vec<String>,
    pub dims: Vec<Vec<String>>,
}

impl View for DataFrame {
    type V = Table;

    open spec fn view(&self) -> Table {
        Table { names: self.header.deep_view(), columns: self.dims.deep_view() }
    }
}

impl DataFrame {
    /// A frame without columns.
    pub fn new() -> (df: DataFrame)
        ensures
            df@ == Table::empty(),
    {
        let df = DataFrame { header: Vec::new(), dims: Vec::new() };
        assert(df.header.deep_view() =~= Seq::empty());
        assert(df.dims.deep_view() =~= Seq::empty());
        df
    }

    /// Looks a column up by name.
    pub fn index_of(&self, name: &str) -> (found: Option<usize>)
        ensures
            match found {
                Some(i) => self@.position(name@) == Some(i as int) && i < self.header.len(),
                None => self@.position(name@) is None,
            },
    {
        let owned = name.to_owned();
        let mut i: usize = 0;
        while i < self.header.len()
            invariant
                i <= self.header.len(),
                owned@ == name@,
                self@.position(name@) == position_from(self@.names, name@, i as int),
            decreases self.header.len() - i,
        {
            if self.header[i] == owned {
                return Some(i);
            }
            i += 1;
        }
        None
    }

    /// Registers a column called `name` unless there is one, and gives its position.
    pub fn column(&mut self, name: &str) -> (index: usize)
        ensures
            final(self)@ == old(self)@.ensure_column(name@),
            index == old(self)@.column_of(name@),
            index < final(self)@.names.len(),
    {
        proof {
            lemma_position_contains(self@, name@);
        }
        match self.index_of(name) {
            Some(index) => index,
            None => {
                let index = self.header.len();
                self.header.push(name.to_owned());
                self.dims.push(Vec::new());
                assert(self.header.deep_view() =~= old(self).header.deep_view().push(name@));
                assert(self.dims.deep_view() =~~= old(self).dims.deep_view().push(Seq::empty()));
                index
            },
        }
    }

    /// Registers a column called `name` unless there is one.
    pub fn ensure_column(&mut self, name: &str)
        ensures
            final(self)@ == old(self)@.ensure_column(name@),
    {
        let _ = self.column(name);
    }

    /// Appends one cell to the column at `index`.
    pub fn append(&mut self, index: usize, value: String)
        requires
            index < old(self)@.columns.len(),
        ensures
            final(self)@ == old(self)@.append(index as int, value@),
    {
        self.dims[index].push(value);
        assert(self.dims.deep_view() =~~= old(self).dims.deep_view().update(
            index as int,
            old(self).dims.deep_view()[index as int].push(value@),
        ));
    }
}

/// Decodes `val` and appends the decoded text to the column at `addr`.
pub fn push_val(df: &mut DataFrame, val: &str, addr: usize)
    requires
        addr < old(df)@.columns.len(),
    ensures
        final(df)@ == old(df)@.append(addr as int, si_text(val@)),
{
    df.append(addr, si_convert(val));
}

} // verus!
