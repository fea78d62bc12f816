use vesuvius_gui::text::{
    chars_of, contains_text, find_chars, has_end, has_start, is_before, last_segment, matches_at,
    parse_chars, parse_number, push_number, push_padded, push_signed, split_words, string_of,
    sub_chars, trim_chars, without_trailing_slash,
};

fn padded(n: u64, width: usize) -> String {
    let mut s = String::new();
    push_padded(&mut s, n, width);
    s
}

fn number(n: u64) -> String {
    let mut s = String::new();
    push_number(&mut s, n);
    s
}

fn signed(n: i64) -> String {
    let mut s = String::new();
    push_signed(&mut s, n);
    s
}

#[test]
fn numbers_are_written_in_decimal() {
    assert_eq!(number(0), "0");
    assert_eq!(number(42), "42");
    assert_eq!(number(u64::MAX), "18446744073709551615");
    assert_eq!(signed(-7), "-7");
    assert_eq!(signed(0), "0");
    assert_eq!(signed(i64::MIN), "-9223372036854775808");
}

#[test]
fn padding_adds_zeros_but_cuts_nothing() {
    assert_eq!(padded(7, 3), "007");
    assert_eq!(padded(0, 2), "00");
    assert_eq!(padded(1234, 3), "1234");
    assert_eq!(padded(5, 0), "5");
}

#[test]
fn pushing_keeps_what_was_there() {
    let mut s = "z".to_string();
    push_padded(&mut s, 12, 3);
    push_number(&mut s, 5);
    push_signed(&mut s, -1);
    assert_eq!(s, "z0125-1");
}

#[test]
fn numbers_are_parsed() {
    assert_eq!(parse_number("0", 255), Some(0));
    assert_eq!(parse_number("255", 255), Some(255));
    assert_eq!(parse_number("256", 255), None);
    assert_eq!(parse_number("+17", 255), Some(17));
    assert_eq!(parse_number("007", 255), Some(7));
    assert_eq!(parse_number("", 255), None);
    assert_eq!(parse_number("+", 255), None);
    assert_eq!(parse_number("-1", 255), None);
    assert_eq!(parse_number("1 ", 255), None);
    assert_eq!(parse_number("18446744073709551615", u64::MAX), Some(u64::MAX));
    assert_eq!(parse_number("18446744073709551616", u64::MAX), None);
}

#[test]
fn parsing_reads_what_was_written() {
    for n in [0u64, 9, 10, 99, 100, 12345, u64::MAX] {
        assert_eq!(parse_number(&number(n), u64::MAX), Some(n));
        assert_eq!(parse_number(&padded(n, 5), u64::MAX), Some(n));
        assert_eq!(parse_chars(&chars_of(&number(n)), u64::MAX), Some(n));
    }
}

#[test]
fn texts_and_characters() {
    let chars = chars_of("aé✓");
    assert_eq!(chars, vec!['a', 'é', '✓']);
    assert_eq!(string_of(&chars), "aé✓");
    assert_eq!(string_of(&sub_chars(&chars, 1, 3)), "é✓");
}

#[test]
fn texts_are_searched() {
    assert!(contains_text("multiscales", "scale"));
    assert!(contains_text("abc", ""));
    assert!(!contains_text("abc", "abcd"));
    assert!(!contains_text("abc", "ac"));
    assert!(has_start("https://x", "http"));
    assert!(!has_start("ftp", "http"));
    assert!(has_end("a.obj", ".obj"));
    assert!(!has_end("a.obj.txt", ".obj"));
    let s = chars_of("abcabc");
    let part = chars_of("bc");
    assert!(matches_at(&s, &part, 4));
    assert!(!matches_at(&s, &part, 5));
    assert_eq!(find_chars(&s, &part, 0), Some(1));
    assert_eq!(find_chars(&s, &part, 2), Some(4));
    assert_eq!(find_chars(&s, &part, 5), None);
}

#[test]
fn paths_are_taken_apart() {
    assert_eq!(without_trailing_slash("a/b/"), "a/b");
    assert_eq!(without_trailing_slash("a/b"), "a/b");
    assert_eq!(last_segment("a/b/c"), "c");
    assert_eq!(last_segment("c"), "c");
    assert_eq!(last_segment("a/"), "");
}

#[test]
fn spaces_are_trimmed_and_split() {
    assert_eq!(string_of(&trim_chars(&chars_of("  a b \t"))), "a b");
    assert_eq!(string_of(&trim_chars(&chars_of("   "))), "");
    let words: Vec<String> =
        split_words(&chars_of(" 12  3 x")).iter().map(|w| string_of(w)).collect();
    assert_eq!(words, vec!["12", "3", "x"]);
    assert!(split_words(&chars_of("  ")).is_empty());
}

#[test]
fn texts_have_an_order() {
    assert!(is_before("1", "10"));
    assert!(is_before("10", "2"));
    assert!(!is_before("2", "10"));
    assert!(!is_before("a", "a"));
    assert!(is_before("", "a"));
    assert!(!is_before("a", ""));
}
