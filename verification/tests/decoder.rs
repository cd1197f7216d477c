use sweep_ingest::si::{exponent_of, si_convert};

fn number(cell: &str) -> f32 {
    cell.parse::<f32>().unwrap_or(0.0)
}

#[test]
fn kilo_becomes_exponent_three() {
    assert_eq!(si_convert("3.3K"), "3.3e3");
    assert_eq!(number(&si_convert("3.3K")), 3300.0);
}

#[test]
fn milli_keeps_the_sign() {
    assert_eq!(si_convert("-1m"), "-1e-3");
    assert_eq!(number(&si_convert("-1m")), -0.001);
}

#[test]
fn every_letter_of_the_table_has_its_exponent() {
    assert_eq!(si_convert("1a"), "1e-18");
    assert_eq!(si_convert("1f"), "1e-15");
    assert_eq!(si_convert("1p"), "1e-12");
    assert_eq!(si_convert("1n"), "1e-9");
    assert_eq!(si_convert("1u"), "1e-6");
    assert_eq!(si_convert("1m"), "1e-3");
    assert_eq!(si_convert("1K"), "1e3");
    assert_eq!(si_convert("1M"), "1e6");
    assert_eq!(si_convert("1G"), "1e9");
    assert_eq!(si_convert("1T"), "1e12");
    assert_eq!(si_convert("1P"), "1e15");
}

#[test]
fn decoded_values_scale_by_the_power_of_ten() {
    assert_eq!(number(&si_convert("2.5u")), 2.5e-6);
    assert_eq!(number(&si_convert("47n")), 47e-9);
    assert_eq!(number(&si_convert("1.5M")), 1.5e6);
    assert_eq!(number(&si_convert("10G")), 10e9);
    assert_eq!(number(&si_convert(".5K")), 500.0);
}

#[test]
fn exponent_table_with_fallback() {
    assert_eq!(exponent_of('m'), "e-3");
    assert_eq!(exponent_of('P'), "e15");
    assert_eq!(exponent_of('x'), "e1");
    assert_eq!(exponent_of('k'), "e1");
}

#[test]
fn plain_number_stays() {
    assert_eq!(si_convert("1.5"), "1.5");
    assert_eq!(si_convert("-0.25"), "-0.25");
    assert_eq!(si_convert(""), "");
    assert_eq!(number(&si_convert("1.5")), 1.5);
}

#[test]
fn text_without_number_decodes_to_zero() {
    assert_eq!(si_convert("abc"), "abc");
    assert_eq!(number(&si_convert("abc")), 0.0);
}

#[test]
fn letter_without_numeric_character_before_it_stays() {
    assert_eq!(si_convert("K"), "K");
    assert_eq!(si_convert("mV"), "mV");
    assert_eq!(si_convert("x m"), "x m");
}

#[test]
fn letter_outside_the_table_stands_for_ten() {
    assert_eq!(si_convert("5x"), "5e1");
    assert_eq!(number(&si_convert("5x")), 50.0);
    assert_eq!(si_convert("1x"), "1e1");
    assert_eq!(si_convert("1k"), "1e1");
    assert_eq!(number(&si_convert("1k")), 10.0);
    assert_eq!(si_convert("-2.5Z"), "-2.5e1");
    assert_eq!(number(&si_convert("-2.5Z")), -25.0);
}

#[test]
fn every_small_and_capital_letter_is_taken() {
    for letter in ('a'..='z').chain('A'..='Z') {
        let token = format!("7{}", letter);
        let expected = format!("7{}", exponent_of(letter));
        assert_eq!(si_convert(&token), expected, "letter {}", letter);
    }
}

#[test]
fn letter_outside_the_table_is_replaced_wherever_it_stands() {
    assert_eq!(si_convert("1x2x"), "1e12e1");
    assert_eq!(si_convert("x1x"), "e11e1");
    assert_eq!(si_convert("2xK"), "2e1K");
}

#[test]
fn exponent_notation_has_its_letter_taken_too() {
    assert_eq!(si_convert("1e5"), "1e15");
    assert_eq!(si_convert("1.5E3"), "1.5e13");
    assert_eq!(si_convert("1e-3"), "1e1-3");
    assert_eq!(number(&si_convert("1e-3")), 0.0);
}

#[test]
fn characters_that_are_no_ascii_letters_stay() {
    assert_eq!(si_convert("1\u{e9}"), "1\u{e9}");
    assert_eq!(si_convert("1\u{b5}"), "1\u{b5}");
    assert_eq!(si_convert("1_"), "1_");
    assert_eq!(si_convert("1 K"), "1 K");
    assert_eq!(si_convert("1%"), "1%");
}

#[test]
fn every_occurrence_of_the_letter_is_replaced() {
    assert_eq!(si_convert("1m5m"), "1e-35e-3");
    assert_eq!(si_convert("m1m"), "e-31e-3");
    assert_eq!(si_convert("3.3mVm"), "3.3e-3Ve-3");
}

#[test]
fn leftmost_letter_behind_a_numeric_character_is_taken() {
    assert_eq!(si_convert("2K5M"), "2e35M");
    assert_eq!(si_convert("M2K5M"), "M2e35M");
    assert_eq!(si_convert("ab1.5ucd"), "ab1.5e-6cd");
}

#[test]
fn suffix_behind_the_letter_is_kept() {
    assert_eq!(si_convert("3.3KHz"), "3.3e3Hz");
    assert_eq!(number(&si_convert("3.3KHz")), 0.0);
}

#[test]
fn minus_and_point_count_as_numeric() {
    assert_eq!(si_convert("-K"), "-e3");
    assert_eq!(si_convert(".m"), ".e-3");
    assert_eq!(si_convert("+K"), "+K");
}

#[test]
fn digits_of_other_scripts_are_not_numeric() {
    assert_eq!(si_convert("\u{0663}K"), "\u{0663}K");
    assert_eq!(si_convert("\u{00e9}1K\u{00e9}"), "\u{00e9}1e3\u{00e9}");
}
