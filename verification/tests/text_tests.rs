use rust_runtime::number::{int_to_text, is_float_literal, parse_int};
use rust_runtime::scan::{
    class_has, find, rfind, scan, split_fields, split_lines, split_tokens, trim, CharClass,
};
use rust_runtime::table::Table;
use rust_runtime::text::{char_is_digit, char_is_space, from_chars, slice, to_chars};

fn chars(s: &str) -> Vec<char> {
    s.chars().collect()
}

fn texts(v: Vec<Vec<char>>) -> Vec<String> {
    v.into_iter().map(|x| x.into_iter().collect()).collect()
}

#[test]
fn chars_round_trip() {
    assert_eq!(to_chars("héllo"), vec!['h', 'é', 'l', 'l', 'o']);
    assert_eq!(to_chars(""), Vec::<char>::new());
    assert_eq!(from_chars(&vec!['a', 'ß', 'c']), "aßc");
    assert_eq!(from_chars(&vec![]), "");
    assert_eq!(from_chars(&to_chars("x = 1")), "x = 1");
}

#[test]
fn slice_takes_a_range() {
    let v = chars("abcdef");
    assert_eq!(slice(&v, 1, 4), chars("bcd"));
    assert_eq!(slice(&v, 0, 6), v);
    assert_eq!(slice(&v, 3, 3), chars(""));
}

#[test]
fn white_space_is_what_the_standard_library_says() {
    let mut n: u32 = 0;
    while n <= 0x3100 {
        if let Some(c) = char::from_u32(n) {
            assert_eq!(char_is_space(c), c.is_whitespace(), "{:x}", n);
            assert_eq!(char_is_digit(c), c.is_ascii_digit(), "{:x}", n);
        }
        n += 1;
    }
}

#[test]
fn classes() {
    assert!(class_has(CharClass::Space, ' '));
    assert!(!class_has(CharClass::Space, 'a'));
    assert!(class_has(CharClass::Word, 'a'));
    assert!(!class_has(CharClass::Word, '\t'));
    assert!(class_has(CharClass::Digit, '7'));
    assert!(!class_has(CharClass::Digit, 'x'));
    assert!(class_has(CharClass::Except(','), 'x'));
    assert!(!class_has(CharClass::Except(','), ','));
}

#[test]
fn scan_stops_at_the_first_character_outside_the_class() {
    let v = chars("  ab12 ");
    assert_eq!(scan(&v, CharClass::Space, 0), 2);
    assert_eq!(scan(&v, CharClass::Word, 2), 6);
    assert_eq!(scan(&v, CharClass::Digit, 4), 6);
    assert_eq!(scan(&v, CharClass::Digit, 2), 2);
    assert_eq!(scan(&v, CharClass::Space, 6), 7);
    assert_eq!(scan(&v, CharClass::Space, 7), 7);
}

#[test]
fn find_first_and_last() {
    let v = chars("a(b)(c)");
    assert_eq!(find(&v, '('), Some(1));
    assert_eq!(rfind(&v, '('), Some(4));
    assert_eq!(find(&v, ')'), Some(3));
    assert_eq!(rfind(&v, ')'), Some(6));
    assert_eq!(find(&v, 'x'), None);
    assert_eq!(rfind(&v, 'x'), None);
    assert_eq!(find(&chars(""), 'x'), None);
    assert_eq!(rfind(&chars(""), 'x'), None);
}

#[test]
fn trim_agrees_with_the_standard_library() {
    for s in ["", " ", "a", " a", "a ", "  a b  ", "\t\na\u{a0}\u{3000}", "\u{2003}x\u{85}"] {
        assert_eq!(from_chars(&trim(&chars(s))), s.trim(), "{:?}", s);
    }
}

#[test]
fn fields_agree_with_the_standard_library() {
    for s in ["", ",", "a", "a,b", "a,,b", ",a,", "a, b ,c", ",,,"] {
        let expected: Vec<String> = s.split(',').map(|x| x.to_string()).collect();
        assert_eq!(texts(split_fields(&chars(s), ',')), expected, "{:?}", s);
    }
}

#[test]
fn tokens_agree_with_the_standard_library() {
    for s in ["", " ", "a", " a ", "a b", "  a\t\tb\nc  ", "let x = 5", "\u{a0}a\u{2003}b"] {
        let expected: Vec<String> = s.split_whitespace().map(|x| x.to_string()).collect();
        assert_eq!(texts(split_tokens(&chars(s))), expected, "{:?}", s);
    }
}

#[test]
fn lines_agree_with_the_standard_library() {
    for s in [
        "", "\n", "a", "a\n", "a\nb", "a\n\nb\n", "a\r\nb\r\n", "a\rb\n", "a\r", "\r\n", "\n\n",
        "a\n\r\nb", "a\r\r\nb",
    ] {
        let expected: Vec<String> = s.lines().map(|x| x.to_string()).collect();
        assert_eq!(texts(split_lines(&chars(s))), expected, "{:?}", s);
    }
}

#[test]
fn integers_read() {
    assert_eq!(parse_int(&chars("0")), Some(0));
    assert_eq!(parse_int(&chars("-15")), Some(-15));
    assert_eq!(parse_int(&chars("+15")), Some(15));
    assert_eq!(parse_int(&chars("9223372036854775807")), Some(i64::MAX));
    assert_eq!(parse_int(&chars("9223372036854775808")), None);
    assert_eq!(parse_int(&chars("-9223372036854775808")), Some(i64::MIN));
    assert_eq!(parse_int(&chars("-9223372036854775809")), None);
    assert_eq!(parse_int(&chars("")), None);
    assert_eq!(parse_int(&chars("-")), None);
    assert_eq!(parse_int(&chars("1.0")), None);
    assert_eq!(parse_int(&chars("12a")), None);
}

#[test]
fn integers_written() {
    assert_eq!(int_to_text(0), "0");
    assert_eq!(int_to_text(7), "7");
    assert_eq!(int_to_text(10), "10");
    assert_eq!(int_to_text(-1), "-1");
    assert_eq!(int_to_text(1234567890), "1234567890");
    assert_eq!(int_to_text(i64::MAX), "9223372036854775807");
    assert_eq!(int_to_text(i64::MIN), "-9223372036854775808");
}

#[test]
fn integers_written_then_read_come_back() {
    for n in [0, 1, -1, 9, 10, 99, 100, -100, 4096, i64::MAX, i64::MIN, i64::MIN + 1] {
        assert_eq!(int_to_text(n), n.to_string());
        assert_eq!(parse_int(&to_chars(&int_to_text(n))), Some(n));
    }
}

#[test]
fn float_literals_recognised() {
    for s in ["1.5", "1", "-1", "+1e10", "1E-5", ".5", "5.", "inf", "-INF", "nan", "infinity"] {
        assert!(is_float_literal(&chars(s)), "{:?}", s);
    }
    for s in ["", ".", "+", "e1", "1e", "1e+", "1.2.3", "in", "infinite", "na", "1f", "0x1"] {
        assert!(!is_float_literal(&chars(s)), "{:?}", s);
    }
}

#[test]
fn table_binds_and_replaces() {
    let mut t: Table<i32> = Table::new();
    assert_eq!(t.get(&"a".to_string()), None);
    assert_eq!(t.names(), Vec::<String>::new());
    t.insert("a".to_string(), 1);
    t.insert("b".to_string(), 2);
    assert_eq!(t.get(&"a".to_string()), Some(&1));
    assert_eq!(t.get(&"b".to_string()), Some(&2));
    t.insert("a".to_string(), 3);
    assert_eq!(t.get(&"a".to_string()), Some(&3));
    assert_eq!(t.get(&"b".to_string()), Some(&2));
    assert_eq!(t.get(&"c".to_string()), None);
    assert_eq!(t.names(), vec!["a".to_string(), "b".to_string()]);
}
