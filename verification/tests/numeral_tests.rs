use rust_database::numeral::{is_float_literal, parse_i32};

const CORPUS: [&str; 96] = [
    "", " ", "0", "5", "05", "0005", "-0", "+0", "+5", "-5", "+", "-", "--5", "+-5", "-+5", "++5",
    "5-", "5+", " 5", "5 ", "5\n", "\t5", "1_000", "1,000", "0x10", "1e5", "1E5", "1e+5", "1e-5",
    "1e", "1e+", "1e-", "e5", "E5", ".5", "5.", ".", "+.", "-.", "+.5", "-5.", "5.5", "5.5.5",
    "5..5", "1.5e10", "1.5e-10", ".5e1", "5.e1", ".e1", "1e5.5", "1e5e5", "1ee5", "1.e", "1.e+",
    "inf", "INF", "Inf", "iNf", "+inf", "-inf", "infinity", "INFINITY", "Infinity", "-Infinity",
    "+infinity", "infinit", "infinityy", "in", "nan", "NaN", "NAN", "-nan", "+NaN", "nana", "na",
    "2147483647", "2147483648", "-2147483648", "-2147483649", "4294967296", "99999999999999999999",
    "-99999999999999999999", "00000000000000000000005", "1e400", "1e-400", "0.0000001", "٣", "５",
    "5٣", "é", "1é", "i\u{307}nf", "ınf", "ＮａＮ", "1e\u{661}", "123456789012345678901234567890",
];

#[test]
fn integers_are_read_as_the_standard_library_reads_them() {
    for text in CORPUS.iter() {
        assert_eq!(parse_i32(text), text.parse::<i32>().ok(), "on {:?}", text);
    }
}

#[test]
fn float_literals_are_those_that_the_standard_library_reads() {
    for text in CORPUS.iter() {
        assert_eq!(is_float_literal(text), text.parse::<f32>().is_ok(), "on {:?}", text);
    }
}

#[test]
fn every_small_integer_is_read_back() {
    let mut v: i32 = -1200;
    while v <= 1200 {
        assert_eq!(parse_i32(&format!("{}", v)), Some(v));
        assert!(is_float_literal(&format!("{}", v)));
        v += 1;
    }
}

#[test]
fn the_ends_of_the_range_are_read() {
    assert_eq!(parse_i32("2147483647"), Some(i32::MAX));
    assert_eq!(parse_i32("+2147483647"), Some(i32::MAX));
    assert_eq!(parse_i32("-2147483648"), Some(i32::MIN));
    assert_eq!(parse_i32("2147483648"), None);
    assert_eq!(parse_i32("-2147483649"), None);
    assert_eq!(parse_i32("0000000002147483647"), Some(i32::MAX));
}

#[test]
fn an_integer_has_a_digit() {
    assert_eq!(parse_i32(""), None);
    assert_eq!(parse_i32("+"), None);
    assert_eq!(parse_i32("-"), None);
    assert_eq!(parse_i32("-0"), Some(0));
    assert_eq!(parse_i32("30"), Some(30));
}

#[test]
fn short_texts_are_read_as_the_standard_library_reads_them() {
    let alphabet = ['0', '7', '+', '-', '.', 'e', 'E', 'i', 'n', 'f', 'a', 'N', ' '];
    let mut texts: Vec<String> = vec![String::new()];
    let mut start = 0;
    for _ in 0..4 {
        let end = texts.len();
        for i in start..end {
            for c in alphabet.iter() {
                let mut longer = texts[i].clone();
                longer.push(*c);
                texts.push(longer);
            }
        }
        start = end;
    }
    for text in texts.iter() {
        assert_eq!(parse_i32(text), text.parse::<i32>().ok(), "on {:?}", text);
        assert_eq!(is_float_literal(text), text.parse::<f32>().is_ok(), "on {:?}", text);
    }
}
