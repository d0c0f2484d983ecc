use sdb::strings::{
    contains_chars, first_piece_of, remove_char, remove_text, split_chars, starts_with_chars,
    text_of_chars,
};
use sdb::text::{
    bool_to_text, chars_of, int_to_text, is_float_literal, lower_chars, parse_bool, parse_int,
    same_chars,
};

fn chars(s: &str) -> Vec<char> {
    s.chars().collect()
}

#[test]
fn integers_are_read_as_the_standard_library_reads_them() {
    let texts = [
        "0", "-0", "+0", "7", "-7", "+7", "007", "2147483647", "2147483648", "-2147483648",
        "-2147483649", "99999999999999999999", "", "+", "-", "--1", "+-1", "1-", "1 ", " 1",
        "1_000", "0x10", "1.0", "1e3", "١", "a", "12a",
    ];
    for t in texts {
        assert_eq!(parse_int(t), t.parse::<i32>().ok(), "{:?}", t);
    }
    assert_eq!(parse_int("-2147483648"), Some(i32::MIN));
    assert_eq!(parse_int("+2147483647"), Some(i32::MAX));
    assert_eq!(parse_int("0000000000000000000012"), Some(12));
}

#[test]
fn integers_are_written_in_decimal() {
    for v in [0, 1, -1, 9, 10, 11, 99, 100, 101, 12345, -12345, i32::MAX, i32::MIN, i32::MIN + 1] {
        assert_eq!(int_to_text(v), v.to_string());
        assert_eq!(parse_int(&int_to_text(v)), Some(v));
    }
}

#[test]
fn truth_values_are_read_and_written() {
    assert_eq!(parse_bool("true"), Some(true));
    assert_eq!(parse_bool("false"), Some(false));
    for t in ["", "True", "FALSE", "1", "0", "yes", "true ", "tru", "truee"] {
        assert_eq!(parse_bool(t), None);
        assert_eq!(parse_bool(t), t.parse::<bool>().ok());
    }
    assert_eq!(bool_to_text(true), "true");
    assert_eq!(bool_to_text(false), "false");
}

#[test]
fn float_literals_are_those_that_the_standard_library_reads() {
    let texts = [
        "3.14", "-3.14", "2.5E10", "2.5e10", "2.5E-10", "2.5e+10", "5.", ".5", "0.5", "7",
        "007", "inf", "-inf", "+infinity", "NaN", "nan", "INF", "Infinity", "iNfInItY", "-nan",
        "+NaN", "", "+", "-", ".", "+.", "-.", "e", "e5", ".e5", "1e", "1e+", "1e-", "1.e5",
        "1.5e5", ".5e5", "+.5", "-5.", "1..2", "1.2.3", "1e5.5", "1e5e5", "--1", "+-1", "1 ",
        " 1", "1_0", "0x10", "infinit", "infinityy", "in", "na", "nann", "1f", "1.0f32", "١",
        "1,5", "1e٥", "Ⅷ", "1E5", "1E+05", "0e0", "00.00e00", ".0", "0.",
    ];
    for t in texts {
        assert_eq!(is_float_literal(t), t.parse::<f32>().is_ok(), "{:?}", t);
        assert_eq!(is_float_literal(t), t.parse::<f64>().is_ok(), "{:?}", t);
    }
}

#[test]
fn characters_of_a_text() {
    assert_eq!(chars_of("aé√"), vec!['a', 'é', '√']);
    assert_eq!(chars_of(""), Vec::<char>::new());
    assert!(same_chars(&chars("abc"), &chars("abc")));
    assert!(!same_chars(&chars("abc"), &chars("abd")));
    assert!(!same_chars(&chars("abc"), &chars("ab")));
    assert_eq!(lower_chars(&chars("AbZ[@é É1")), chars("abz[@é É1"));
    assert_eq!(text_of_chars(&chars("aé√ b")), "aé√ b");
    assert_eq!(text_of_chars(&chars("")), "");
}

#[test]
fn texts_are_split_and_searched() {
    assert_eq!(remove_char(&chars(" a b  c "), ' '), chars("abc"));
    assert_eq!(remove_char(&chars(""), ' '), chars(""));
    assert_eq!(split_chars(&chars("a,b,,c"), ','), vec![chars("a"), chars("b"), chars(""), chars("c")]);
    assert_eq!(split_chars(&chars(""), ','), vec![chars("")]);
    assert_eq!(split_chars(&chars(","), ','), vec![chars(""), chars("")]);
    for text in ["a,b,,c", "", ",", "abc", ",a,", "a b"] {
        let expected: Vec<Vec<char>> = text.split(',').map(|p| p.chars().collect()).collect();
        assert_eq!(split_chars(&chars(text), ','), expected);
    }
    assert!(contains_chars(&chars("id int primary key"), &chars("primary key")));
    assert!(!contains_chars(&chars("id int primary ke"), &chars("primary key")));
    assert!(contains_chars(&chars("abc"), &chars("")));
    assert!(contains_chars(&chars(""), &chars("")));
    assert!(!contains_chars(&chars(""), &chars("a")));
    assert!(contains_chars(&chars("abc"), &chars("abc")));
    assert!(contains_chars(&chars("abc"), &chars("c")));
    assert!(starts_with_chars(&chars(".exit"), &chars(".")));
    assert!(!starts_with_chars(&chars("exit."), &chars(".")));
    assert!(!starts_with_chars(&chars(""), &chars(".")));
    assert_eq!(first_piece_of(&chars("insert into t"), ' '), chars("insert"));
    assert_eq!(first_piece_of(&chars("insert"), ' '), chars("insert"));
    assert_eq!(first_piece_of(&chars(" insert"), ' '), chars(""));
    assert_eq!(first_piece_of(&chars(""), ' '), chars(""));
}

#[test]
fn occurrences_of_a_text_are_removed_from_left_to_right() {
    let cases = [
        ("id int primary key", "primary key"),
        ("aaa", "aa"),
        ("ababab", "ab"),
        ("abcabc", "bc"),
        ("abc", ""),
        ("", "a"),
        ("ab", "abc"),
        ("xaax", "a"),
        ("aXbaXb", "aXb"),
        ("not nullnot null not null", "not null"),
    ];
    for (text, part) in cases {
        assert_eq!(
            remove_text(&chars(text), &chars(part)),
            chars(&text.replace(part, "")),
            "{:?} without {:?}",
            text,
            part
        );
    }
}
