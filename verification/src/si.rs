//! The decoder for magnitude letters: a token such as `3.3K` becomes the text `3.3e3`, which
//! reads as a plain decimal number.
//!
//! A letter counts where it directly follows a numeric character. The letters of the table
//! stand for their powers of ten. Any other letter of the ASCII alphabet stands for `e1`, so
//! that `5x` becomes `5e1`: a quirk that is kept on purpose. It reaches the letter `e` too: a
//! token that is written with an exponent already, such as `1e5`, becomes `1e15`.
use crate::text::{replace_char, replace_each};
use vstd::prelude::*;

verus! {

/// The pattern that finds the letter: a run of digits, points and minus signs, then one
/// letter of the ASCII alphabet, which is the first group.
pub const LETTER_PATTERN: &'static str = "[0-9\\.-]+([A-Za-z])";

/// A character of a numeric span: a digit, the decimal point or the minus sign.
pub open spec fn is_numeric(c: char) -> bool {
    ('0' <= c && c <= '9') || c == '.' || c == '-'
}

/// A letter of the ASCII alphabet, small or capital.
pub open spec fn is_letter(c: char) -> bool {
    ('a' <= c && c <= 'z') || ('A' <= c && c <= 'Z')
}

/// A magnitude letter of the table.
pub open spec fn is_prefix(c: char) -> bool {
    c == 'm' || c == 'u' || c == 'n' || c == 'p' || c == 'f' || c == 'a' || c == 'K' || c == 'M'
        || c == 'G' || c == 'T' || c == 'P'
}

/// A letter stands at position `j`, directly behind a numeric character.
pub open spec fn letter_at(s: Seq<char>, j: int) -> bool {
    0 < j < s.len() && is_numeric(s[j - 1]) && is_letter(s[j])
}

/// The letter at the first position from `j` on where one stands behind a numeric character.
pub open spec fn captured_from(s: Seq<char>, j: int) -> Option<char>
    decreases s.len() - j,
{
    if j >= s.len() {
        None
    } else if letter_at(s, j) {
        Some(s[j])
    } else {
        captured_from(s, j + 1)
    }
}

/// The letter that a token is decoded by: the leftmost one that directly follows a numeric
/// character, if there is any.
pub open spec fn captured_letter(s: Seq<char>) -> Option<char> {
    captured_from(s, 1)
}

/// The exponent notation that stands for a letter: the power of ten of a letter of the
/// table, and `e1` for any other character.
pub open spec fn exponent_text(c: char) -> Seq<char> {
    if c == 'a' {
        seq!['e', '-', '1', '8']
    } else if c == 'f' {
        seq!['e', '-', '1', '5']
    } else if c == 'p' {
        seq!['e', '-', '1', '2']
    } else if c == 'n' {
        seq!['e', '-', '9']
    } else if c == 'u' {
        seq!['e', '-', '6']
    } else if c == 'm' {
        seq!['e', '-', '3']
    } else if c == 'K' {
        seq!['e', '3']
    } else if c == 'M' {
        seq!['e', '6']
    } else if c == 'G' {
        seq!['e', '9']
    } else if c == 'T' {
        seq!['e', '1', '2']
    } else if c == 'P' {
        seq!['e', '1', '5']
    } else {
        seq!['e', '1']
    }
}

/// The decoded text of a token: where the token holds a letter behind a numeric character,
/// every occurrence of the leftmost such letter is replaced by its exponent notation; any
/// other token stays as it is.
pub open spec fn si_text(token: Seq<char>) -> Seq<char> {
    match captured_letter(token) {
        Some(c) => replace_char(token, c, exponent_text(c)),
        None => token,
    }
}

/// Compiles `pattern` with `regex::Regex::new`, searches `token` with `Regex::captures` and
/// hands back the character that the first group matched. Only `LETTER_PATTERN` is admitted.
/// The search is leftmost-first and the numeric run is greedy. No numeric character is a
/// letter, so a run can only be followed by a character outside the run, and the pattern
/// matches exactly where an ASCII letter directly follows a numeric character; the leftmost
/// match is the one whose letter stands leftmost. The contract claims that this letter is
/// returned, and `None` where no ASCII letter follows a numeric character.
#[verifier::external_body]
fn capture_letter(pattern: &str, token: &str) -> (letter: Option<char>)
    requires
        pattern@ == LETTER_PATTERN@,
    ensures
        letter == captured_letter(token@),
{
    let re = regex::Regex::new(pattern).ok()?;
    re.captures(token)?.get(1)?.as_str().chars().next()
}

/// The exponent notation for a letter.
pub fn exponent_of(c: char) -> (e: &'static str)
    ensures
        e@ == exponent_text(c),
{
    proof {
        reveal_strlit("e-18");
        reveal_strlit("e-15");
        reveal_strlit("e-12");
        reveal_strlit("e-9");
        reveal_strlit("e-6");
        reveal_strlit("e-3");
        reveal_strlit("e3");
        reveal_strlit("e6");
        reveal_strlit("e9");
        reveal_strlit("e12");
        reveal_strlit("e15");
        reveal_strlit("e1");
    }
    let e = if c == 'a' {
        "e-18"
    } else if c == 'f' {
        "e-15"
    } else if c == 'p' {
        "e-12"
    } else if c == 'n' {
        "e-9"
    } else if c == 'u' {
        "e-6"
    } else if c == 'm' {
        "e-3"
    } else if c == 'K' {
        "e3"
    } else if c == 'M' {
        "e6"
    } else if c == 'G' {
        "e9"
    } else if c == 'T' {
        "e12"
    } else if c == 'P' {
        "e15"
    } else {
        "e1"
    };
    assert(e@ =~= exponent_text(c));
    e
}

/// Decodes one token into the text of a plain decimal number.
pub fn si_convert(ins: &str) -> (out: String)
    ensures
        out@ == si_text(ins@),
{
    match capture_letter(LETTER_PATTERN, ins) {
        Some(c) => replace_each(ins, c, exponent_of(c)),
        None => ins.to_owned(),
    }
}

} // verus!
