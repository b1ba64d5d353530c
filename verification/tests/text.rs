use channel_graph::json::find_member;
use channel_graph::text::{
    chars_of, find_char, parse_unsigned, push_decimal, push_digit, push_hex, read_decimal,
    read_hex_group, split_ranges,
};
use channel_graph::Json;

#[test]
fn characters_of_a_text() {
    assert_eq!(chars_of(""), Vec::<char>::new());
    assert_eq!(chars_of("a\u{2603}b"), vec!['a', '\u{2603}', 'b']);
}

#[test]
fn decimal_ranges() {
    let v = chars_of("x0123y");
    assert_eq!(read_decimal(&v, 1, 5, 123), Some(123));
    assert_eq!(read_decimal(&v, 1, 5, 122), None);
    assert_eq!(read_decimal(&v, 2, 4, 12), Some(12));
    assert_eq!(read_decimal(&v, 1, 1, 10), None);
    assert_eq!(read_decimal(&v, 0, 5, 1000), None);
    assert_eq!(read_decimal(&v, 1, 6, 1000), None);
    let big = chars_of("18446744073709551615");
    assert_eq!(read_decimal(&big, 0, 20, u64::MAX), Some(u64::MAX));
    assert_eq!(read_decimal(&big, 0, 20, u64::MAX - 1), None);
    let bigger = chars_of("18446744073709551616");
    assert_eq!(read_decimal(&bigger, 0, 20, u64::MAX), None);
}

#[test]
fn unsigned_numbers() {
    assert_eq!(parse_unsigned("12345", 65535), Some(12345));
    assert_eq!(parse_unsigned("+12345", 65535), Some(12345));
    assert_eq!(parse_unsigned("0000065535", 65535), Some(65535));
    assert_eq!(parse_unsigned("65536", 65535), None);
    assert_eq!(parse_unsigned("", 65535), None);
    assert_eq!(parse_unsigned("+", 65535), None);
    assert_eq!(parse_unsigned("-0", 65535), None);
    assert_eq!(parse_unsigned("12 ", 65535), None);
}

#[test]
fn hexadecimal_groups() {
    let v = chars_of("0fFfF:aBc9g");
    assert_eq!(read_hex_group(&v, 0, 4), Some(0x0fff));
    assert_eq!(read_hex_group(&v, 1, 5), Some(0xffff));
    assert_eq!(read_hex_group(&v, 0, 5), None);
    assert_eq!(read_hex_group(&v, 6, 10), Some(0xabc9));
    assert_eq!(read_hex_group(&v, 9, 10), Some(9));
    assert_eq!(read_hex_group(&v, 9, 11), None);
    assert_eq!(read_hex_group(&v, 5, 6), None);
    assert_eq!(read_hex_group(&v, 3, 3), None);
}

#[test]
fn splitting_at_a_separator() {
    let v = chars_of("a.bc..d.");
    assert_eq!(split_ranges(&v, 0, 8, '.'), vec![(0, 1), (2, 4), (5, 5), (6, 7), (8, 8)]);
    assert_eq!(split_ranges(&v, 2, 4, '.'), vec![(2, 4)]);
    assert_eq!(split_ranges(&v, 3, 3, '.'), vec![(3, 3)]);
    assert_eq!(split_ranges(&v, 4, 6, '.'), vec![(4, 4), (5, 5), (6, 6)]);
    assert_eq!(find_char(&v, 0, 8, '.'), 1);
    assert_eq!(find_char(&v, 2, 8, 'd'), 6);
    assert_eq!(find_char(&v, 2, 4, '.'), 4);
    assert_eq!(find_char(&v, 0, 8, 'z'), 8);
}

#[test]
fn numbers_as_text() {
    let mut out = String::from("n=");
    push_decimal(&mut out, 0);
    out.push(',');
    push_decimal(&mut out, 1000000);
    out.push(',');
    push_decimal(&mut out, u64::MAX);
    assert_eq!(out, "n=0,1000000,18446744073709551615");
    let mut hex = String::new();
    push_hex(&mut hex, 0);
    hex.push(' ');
    push_hex(&mut hex, 0xabc);
    hex.push(' ');
    push_hex(&mut hex, 0xffff);
    hex.push(' ');
    push_hex(&mut hex, 0x10);
    assert_eq!(hex, "0 abc ffff 10");
    let mut digits = String::new();
    for d in 0..16 {
        push_digit(&mut digits, d);
    }
    assert_eq!(digits, "0123456789abcdef");
}

#[test]
fn first_member_with_the_key_is_found() {
    let members = vec![
        ("a".to_string(), Json::Number(Some(1))),
        ("b".to_string(), Json::Null),
        ("a".to_string(), Json::Number(Some(2))),
    ];
    assert_eq!(find_member(&members, "a"), Some(&Json::Number(Some(1))));
    assert_eq!(find_member(&members, "b"), Some(&Json::Null));
    assert_eq!(find_member(&members, "A"), None);
    assert_eq!(find_member(&members, ""), None);
    assert_eq!(find_member(&Vec::new(), "a"), None);
}
