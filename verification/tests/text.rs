use hwpb::ordering::{key_le, make_text_key};
use hwpb::text::{
    chars_of, contains_chars, contains_text, is_white_space, push_decimal, push_hex, split_words,
    to_decimal,
};
use hwpb::web::analysis::is_extra_task;
use hwpb::web::push::parameters;

fn words(text: &str) -> Vec<String> {
    split_words(text).into_iter().map(|w| w.into_iter().collect()).collect()
}

#[test]
fn numbers_are_written_in_decimal() {
    assert_eq!(to_decimal(0), "0");
    assert_eq!(to_decimal(7), "7");
    assert_eq!(to_decimal(2024), "2024");
    assert_eq!(to_decimal(-42), "-42");
    assert_eq!(to_decimal(i64::MAX), "9223372036854775807");
    assert_eq!(to_decimal(i64::MIN), "-9223372036854775808");
    let mut s = String::from("#");
    push_decimal(&mut s, 105);
    assert_eq!(s, "#105");
}

#[test]
fn numbers_are_written_in_hex() {
    let mut s = String::new();
    push_hex(&mut s, 0);
    assert_eq!(s, "0");
    let mut s = String::new();
    push_hex(&mut s, 0xfe80);
    assert_eq!(s, "fe80");
    let mut s = String::new();
    push_hex(&mut s, 0x0db8);
    assert_eq!(s, "db8");
}

#[test]
fn a_text_is_split_at_white_space() {
    assert_eq!(words("ab cd"), vec!["ab", "cd"]);
    assert_eq!(words("  ab \t\n cd  "), vec!["ab", "cd"]);
    assert_eq!(words(""), Vec::<String>::new());
    assert_eq!(words(" \u{a0}\u{2003} "), Vec::<String>::new());
    assert_eq!(words("one"), vec!["one"]);
    assert!(is_white_space(' ') && is_white_space('\t') && is_white_space('\u{3000}'));
    assert!(!is_white_space('a') && !is_white_space('\u{200b}'));
}

#[test]
fn a_part_is_found_in_a_whole() {
    assert!(contains_text("Gruppe (ENDE)", "(ENDE)"));
    assert!(contains_text("abc", ""));
    assert!(contains_text("", ""));
    assert!(contains_text("abc", "abc"));
    assert!(contains_text("aab", "ab"));
    assert!(!contains_text("abc", "abcd"));
    assert!(!contains_text("(ende)", "(ENDE)"));
    assert!(!contains_text("", "a"));
    assert!(contains_chars(&chars_of("löten"), &chars_of("öt")));
    assert_eq!(chars_of("añb"), vec!['a', 'ñ', 'b']);
}

#[test]
fn keys_are_ordered_like_words() {
    let a = make_text_key("Anna");
    let b = make_text_key("Annabel");
    let c = make_text_key("Bob");
    assert!(key_le(&a, &b) && !key_le(&b, &a));
    assert!(key_le(&b, &c) && !key_le(&c, &b));
    assert!(key_le(&a, &a));
    assert_eq!(make_text_key("ab"), vec![97, 98, -1]);
    assert!(key_le(&vec![], &vec![1]));
    assert!(!key_le(&vec![1], &vec![]));
    assert!(key_le(&vec![1, 5], &vec![2]));
}

#[test]
fn extras_begin_with_z() {
    assert!(is_extra_task("Zusatz"));
    assert!(is_extra_task("z1"));
    assert!(!is_extra_task("A Zusatz"));
    assert!(!is_extra_task(""));
}

#[test]
fn listeners_find_the_server() {
    let (url, port) = parameters(8001, true, "lab.example");
    assert_eq!(url.0, "//lab.example:8001/push");
    assert_eq!(port, 8001);
    let (url, port) = parameters(8001, false, "lab.example");
    assert_eq!(url.0, "/push");
    assert_eq!(port, 8001);
}
