use fimbulfamb::utils::{generate_code, parse_line, words_from_lines, Word};
use fimbulfamb::text::{decimal_text, split_on, trim};

fn lines(items: &[&str]) -> Vec<String> {
    items.iter().map(|s| s.to_string()).collect()
}

#[test]
fn empty_word_has_no_text() {
    let w = Word::empty();
    assert_eq!(w.word, "");
    assert_eq!(w.definition, "");
}

#[test]
fn line_with_tab_gives_word_and_definition() {
    let w = parse_line("hestur\tdýr með fjóra fætur").unwrap();
    assert_eq!(w.word, "hestur");
    assert_eq!(w.definition, "dýr með fjóra fætur");
}

#[test]
fn only_second_field_is_the_definition() {
    let w = parse_line("a\tb\tc").unwrap();
    assert_eq!(w.word, "a");
    assert_eq!(w.definition, "b");
}

#[test]
fn definition_keeps_its_spaces() {
    let w = parse_line("orð\t  skýring  ").unwrap();
    assert_eq!(w.definition, "  skýring  ");
}

#[test]
fn line_without_tab_is_skipped() {
    assert!(parse_line("no tab here").is_none());
    assert!(parse_line("").is_none());
}

#[test]
fn leading_tab_gives_empty_word() {
    let w = parse_line("\tdef").unwrap();
    assert_eq!(w.word, "");
    assert_eq!(w.definition, "def");
}

#[test]
fn word_list_keeps_lines_with_tabs_in_order() {
    let words = words_from_lines(&lines(&["a\t1", "skip", "b\t2\tx", "c\t"]));
    let got: Vec<(String, String)> = words.iter().map(|w| (w.word.clone(), w.definition.clone())).collect();
    assert_eq!(
        got,
        vec![
            ("a".to_string(), "1".to_string()),
            ("b".to_string(), "2".to_string()),
            ("c".to_string(), "".to_string()),
        ]
    );
}

#[test]
fn full_word_list_trims_every_definition() {
    let words = fimbulfamb::words_from_lines(&lines(&["köttur\t dýr \t\u{a0}gæludýr\n", "nothing"]));
    assert_eq!(words.len(), 1);
    assert_eq!(words[0].word, "köttur");
    assert_eq!(words[0].definitions, vec!["dýr".to_string(), "gæludýr".to_string()]);
}

#[test]
fn full_line_without_tab_is_skipped() {
    assert!(fimbulfamb::parse_line("word").is_none());
    let e = fimbulfamb::parse_line("w\t").unwrap();
    assert_eq!(e.definitions, vec!["".to_string()]);
}

#[test]
fn split_keeps_empty_fields() {
    assert_eq!(split_on("a\t\tb\t", '\t'), vec!["a", "", "b", ""]);
    assert_eq!(split_on("", '\t'), vec![""]);
}

#[test]
fn trim_removes_unicode_white_space_only_at_the_ends() {
    assert_eq!(trim("  a b \t\n"), "a b");
    assert_eq!(trim("\u{3000}x\u{2003}"), "x");
    assert_eq!(trim("   "), "");
    assert_eq!(trim("x"), "x");
}

#[test]
fn numbers_are_written_in_decimal() {
    assert_eq!(decimal_text(0), "0");
    assert_eq!(decimal_text(7), "7");
    assert_eq!(decimal_text(305), "305");
    assert_eq!(decimal_text(-12), "-12");
    assert_eq!(decimal_text(i16::MIN), "-32768");
    assert_eq!(decimal_text(i16::MAX), "32767");
}

#[test]
fn code_has_six_characters_from_the_alphabet() {
    for _ in 0..50 {
        let code = generate_code();
        assert_eq!(code.chars().count(), 6);
        assert!(code.chars().all(|c| c.is_ascii_uppercase() || c.is_ascii_digit()));
    }
}

#[test]
fn codes_differ() {
    let a = generate_code();
    let b = generate_code();
    let c = generate_code();
    assert!(a != b || b != c);
}

#[test]
fn full_word_list_reads_every_trimmed_definition() {
    let words = fimbulfamb::words_from_lines(&lines(&["cat\t feline \tpet ", "nodef"]));
    assert_eq!(words.len(), 1);
    assert_eq!(words[0].word, "cat");
    assert_eq!(words[0].definitions, vec!["feline".to_string(), "pet".to_string()]);
}
