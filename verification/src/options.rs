//! The configuration store: text values under text keys, with two settings that are always
//! there from the start.
use crate::text::{cut, cut_once, split, split_once, trim, trimmed};
use vstd::hash_map::StringHashMap;
use vstd::prelude::*;

verus! {

pub struct Options {
    options: StringHashMap<String>,
}

/// The settings that every store starts with.
pub open spec fn defaults() -> Map<Seq<char>, Seq<char>> {
    Map::empty().insert("series"@, "line"@).insert("axes"@, "rectangular"@)
}

/// A line of a configuration text is a comment: its first character that is no white space
/// is `#`.
pub open spec fn is_comment(line: Seq<char>) -> bool {
    trim(line).len() > 0 && trim(line).first() == '#'
}

/// The settings after one line of a configuration text was read: a comment changes nothing;
/// a line with a colon sets the trimmed text before the first colon to the trimmed text
/// behind it; any other line changes nothing.
pub open spec fn read_line(settings: Map<Seq<char>, Seq<char>>, line: Seq<char>) -> Map<
    Seq<char>,
    Seq<char>,
> {
    if is_comment(line) {
        settings
    } else {
        match split_once(line, seq![':']) {
            Some((key, value)) => settings.insert(trim(key), trim(value)),
            None => settings,
        }
    }
}

/// The settings after the given lines were read in order, starting from the defaults.
pub open spec fn read_lines(lines: Seq<Seq<char>>) -> Map<Seq<char>, Seq<char>>
    decreases lines.len(),
{
    if lines.len() == 0 {
        defaults()
    } else {
        read_line(read_lines(lines.drop_last()), lines.last())
    }
}

/// The settings that a configuration text gives: its lines, which end at each line feed, read
/// in order.
pub open spec fn read_text(text: Seq<char>) -> Map<Seq<char>, Seq<char>> {
    read_lines(split(text, seq!['\n']))
}

impl View for Options {
    type V = Map<Seq<char>, Seq<char>>;

    closed spec fn view(&self) -> Map<Seq<char>, Seq<char>> {
        self.options@.map_values(|v: String| v@)
    }
}

impl Options {
    /// A store with the two default settings.
    pub fn new() -> (options: Options)
        ensures
            options@ == defaults(),
    {
        let mut options = Options { options: StringHashMap::new() };
        assert(options@ =~= Map::empty());
        options.update("series".to_owned(), "line".to_owned());
        options.update("axes".to_owned(), "rectangular".to_owned());
        options
    }

    /// Sets `key` to `value`, whether or not the key had a value.
    pub fn update(&mut self, key: String, value: String)
        ensures
            final(self)@ == old(self)@.insert(key@, value@),
    {
        self.options.insert(key, value);
        assert(self@ =~= old(self)@.insert(key@, value@));
    }

    /// The value under `key`, or the text `None` where the key has none.
    pub fn retrieve(&self, key: String) -> (value: String)
        ensures
            value@ == if self@.contains_key(key@) {
                self@[key@]
            } else {
                "None"@
            },
    {
        match self.options.get(key.as_str()) {
            Some(v) => v.clone(),
            None => "None".to_owned(),
        }
    }
}

/// Reads a configuration text into a store that starts with the defaults.
pub fn read(text: &str) -> (options: Options)
    ensures
        options@ == read_text(text@),
{
    let mut options = Options::new();
    let lines = cut(text, "\n");
    proof {
        reveal_strlit("\n");
        reveal_strlit(":");
        assert("\n"@ =~= seq!['\n']);
        assert(":"@ =~= seq![':']);
    }
    let mut i: usize = 0;
    while i < lines.len()
        invariant
            i <= lines.len(),
            ":"@ == seq![':'],
            options@ == read_lines(lines.deep_view().take(i as int)),
        decreases lines.len() - i,
    {
        let line = lines[i].as_str();
        proof {
            let upto = lines.deep_view().take(i + 1);
            assert(upto.drop_last() == lines.deep_view().take(i as int));
            assert(upto.last() == line@);
        }
        let bare = trimmed(line);
        let comment = bare.as_str().unicode_len() > 0 && bare.as_str().get_char(0) == '#';
        if !comment {
            match cut_once(line, ":") {
                Some((key, value)) => {
                    options.update(trimmed(key.as_str()), trimmed(value.as_str()));
                },
                None => {},
            }
        }
        i += 1;
    }
    assert(lines.deep_view().take(lines.len() as int) == lines.deep_view());
    options
}

} // verus!
