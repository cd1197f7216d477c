use sweep_ingest::text::{
    chars_of, cut, cut_once, find_in, find_last, has, last_is, matches_at, replace_each, same,
    space, strip_start, trimmed,
};

fn texts(items: &[&str]) -> Vec<String> {
    items.iter().map(|s| s.to_string()).collect()
}

fn chars(s: &str) -> Vec<char> {
    s.chars().collect()
}

#[test]
fn chars_of_gives_every_character() {
    assert_eq!(chars_of("a\u{e9}\u{1f600}b"), vec!['a', '\u{e9}', '\u{1f600}', 'b']);
    assert_eq!(chars_of(""), Vec::<char>::new());
}

#[test]
fn matches_at_compares_in_place() {
    assert!(matches_at(&chars("hello"), &chars("ell"), 1));
    assert!(!matches_at(&chars("hello"), &chars("ell"), 0));
    assert!(!matches_at(&chars("hello"), &chars("lo"), 4));
    assert!(matches_at(&chars("hello"), &chars(""), 5));
    assert!(!matches_at(&chars("hello"), &chars(""), 6));
    assert!(!matches_at(&chars("hi"), &chars("high"), 0));
}

#[test]
fn find_in_gives_the_leftmost_occurrence() {
    assert_eq!(find_in(&chars("abcabc"), &chars("bc"), 0), Some(1));
    assert_eq!(find_in(&chars("abcabc"), &chars("bc"), 2), Some(4));
    assert_eq!(find_in(&chars("abcabc"), &chars("bc"), 5), None);
    assert_eq!(find_in(&chars("abcabc"), &chars("x"), 0), None);
    assert_eq!(find_in(&chars("abc"), &chars(""), 0), Some(0));
    assert_eq!(find_in(&chars("abc"), &chars(""), 3), Some(3));
    assert_eq!(find_in(&chars("abc"), &chars(""), 4), None);
    assert_eq!(find_in(&chars(""), &chars("a"), 0), None);
    assert_eq!(find_in(&chars("aaa"), &chars("aa"), 0), Some(0));
}

#[test]
fn find_last_gives_the_rightmost_character() {
    assert_eq!(find_last(&chars("a(b(c"), '('), Some(3));
    assert_eq!(find_last(&chars("(abc"), '('), Some(0));
    assert_eq!(find_last(&chars("abc"), '('), None);
    assert_eq!(find_last(&chars(""), '('), None);
}

#[test]
fn has_finds_a_part_anywhere() {
    assert!(has("The Parameters: a", "Parameters"));
    assert!(has("Parameters", "Parameters"));
    assert!(!has("Parameter", "Parameters"));
    assert!(!has("parameters", "Parameters"));
    assert!(has("abc", ""));
    assert!(has("", ""));
}

#[test]
fn cut_once_parts_at_the_first_occurrence() {
    assert_eq!(cut_once("a=b=c", "="), Some(("a".to_string(), "b=c".to_string())));
    assert_eq!(cut_once("=b", "="), Some((String::new(), "b".to_string())));
    assert_eq!(cut_once("a=", "="), Some(("a".to_string(), String::new())));
    assert_eq!(cut_once("abc", "="), None);
    assert_eq!(cut_once("a, b, c", ", "), Some(("a".to_string(), "b, c".to_string())));
    assert_eq!(cut_once("\u{e9}=\u{fc}", "="), Some(("\u{e9}".to_string(), "\u{fc}".to_string())));
}

#[test]
fn cut_gives_one_more_piece_than_occurrences() {
    assert_eq!(cut("a,b,c", ","), texts(&["a", "b", "c"]));
    assert_eq!(cut("a,,c,", ","), texts(&["a", "", "c", ""]));
    assert_eq!(cut(",", ","), texts(&["", ""]));
    assert_eq!(cut("", ","), texts(&[""]));
    assert_eq!(cut("abc", ","), texts(&["abc"]));
    assert_eq!(cut("a, b,c, d", ", "), texts(&["a", "b,c", "d"]));
    assert_eq!(cut("aaa", "aa"), texts(&["", "a"]));
    assert_eq!(cut("abc", ""), texts(&["abc"]));
}

#[test]
fn strip_start_takes_a_prefix_off() {
    assert_eq!(strip_start("Parameters: a=1", "Parameters: "), Some("a=1".to_string()));
    assert_eq!(strip_start("Parameters: ", "Parameters: "), Some(String::new()));
    assert_eq!(strip_start(" Parameters: a", "Parameters: "), None);
    assert_eq!(strip_start("Para", "Parameters: "), None);
    assert_eq!(strip_start("abc", ""), Some("abc".to_string()));
}

#[test]
fn last_is_looks_at_the_end() {
    assert!(last_is("V(x) Y", 'Y'));
    assert!(last_is("Y", 'Y'));
    assert!(!last_is("V(x) X", 'Y'));
    assert!(!last_is("Y ", 'Y'));
    assert!(!last_is("", 'Y'));
}

#[test]
fn replace_each_replaces_every_occurrence() {
    assert_eq!(replace_each("1m5m", 'm', "e-3"), "1e-35e-3");
    assert_eq!(replace_each("abc", 'x', "e1"), "abc");
    assert_eq!(replace_each("", 'x', "e1"), "");
    assert_eq!(replace_each("KKK", 'K', ""), "");
    assert_eq!(replace_each("\u{e9}K\u{e9}", 'K', "e3"), "\u{e9}e3\u{e9}");
}

#[test]
fn same_compares_characters() {
    assert!(same("wave", "wave"));
    assert!(!same("wave", "Wave"));
    assert!(!same("wave", "waves"));
    assert!(same("", ""));
}

#[test]
fn space_agrees_with_the_standard_library() {
    for n in 0..0x11_0000u32 {
        if let Some(c) = char::from_u32(n) {
            assert_eq!(space(c), c.is_whitespace(), "character {:#x}", n);
        }
    }
}

#[test]
fn trimmed_takes_white_space_off_both_ends() {
    assert_eq!(trimmed("  a b \t\r\n"), "a b");
    assert_eq!(trimmed("a"), "a");
    assert_eq!(trimmed(""), "");
    assert_eq!(trimmed(" \t "), "");
    assert_eq!(trimmed("\u{a0}x\u{3000}"), "x");
    assert_eq!(trimmed(" # c"), "# c");
}

#[test]
fn trimmed_agrees_with_the_standard_library() {
    for s in ["", " ", "a", " a", "a ", "  a  b  ", "\n\ta\u{2003}", "\u{feff}a "] {
        assert_eq!(trimmed(s), s.trim());
    }
}

#[test]
fn cut_agrees_with_the_standard_library() {
    for s in ["", ",", "a,b", ",a,,b,", "a, b", ", , ", "abc"] {
        for pat in [",", ", ", "=", "ab"] {
            let expected: Vec<String> = s.split(pat).map(String::from).collect();
            assert_eq!(cut(s, pat), expected);
            let once = s.split_once(pat).map(|(a, b)| (a.to_string(), b.to_string()));
            assert_eq!(cut_once(s, pat), once);
            assert_eq!(has(s, pat), s.contains(pat));
        }
    }
}
