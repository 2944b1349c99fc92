use circles::rfid_tags::{parse_reading_line, ReadingWindow};
use circles::text::{
    bytes_to_hex_upper, i64_to_decimal, parse_hex_u8, parse_i8, parse_u8, str_equal,
    u64_to_decimal,
};

#[test]
fn decimal_rendering() {
    assert_eq!(u64_to_decimal(0), "0");
    assert_eq!(u64_to_decimal(1234), "1234");
    assert_eq!(u64_to_decimal(u64::MAX), u64::MAX.to_string());
    assert_eq!(i64_to_decimal(-80), "-80");
    assert_eq!(i64_to_decimal(i64::MIN), i64::MIN.to_string());
    assert_eq!(i64_to_decimal(7), "7");
}

#[test]
fn hexadecimal_rendering() {
    assert_eq!(bytes_to_hex_upper(&[]), "");
    assert_eq!(bytes_to_hex_upper(&[0x0a, 0xff, 0x00]), "0AFF00");
}

#[test]
fn number_parsing_follows_from_str() {
    for s in ["", "+", "-", "0", "+12", "255", "256", "-1", "1a", "007", "-128", "127", "128", "-129"] {
        assert_eq!(parse_u8(s.as_bytes()), s.parse::<u8>().ok(), "u8 {:?}", s);
        assert_eq!(parse_i8(s.as_bytes()), s.parse::<i8>().ok(), "i8 {:?}", s);
    }
    for s in ["", "+", "+f", "FF", "ff", "100", "0g", "-1", "0a"] {
        assert_eq!(parse_hex_u8(s.as_bytes()), u8::from_str_radix(s, 16).ok(), "hex {:?}", s);
    }
}

#[test]
fn string_equality() {
    assert!(str_equal("abc", "abc"));
    assert!(!str_equal("abc", "abd"));
    assert!(!str_equal("abc", "ab"));
    assert!(str_equal("", ""));
}

#[test]
fn reading_lines_have_three_fields() {
    assert_eq!(parse_reading_line("abc|2|-40"), Some(("abc".to_string(), 2, -40)));
    assert_eq!(parse_reading_line("abc|x|y"), Some(("abc".to_string(), 0, 0)));
    assert_eq!(parse_reading_line("é|1|"), Some(("é".to_string(), 1, 0)));
    assert_eq!(parse_reading_line("a|b"), None);
    assert_eq!(parse_reading_line("a|1|2|3"), None);
    assert_eq!(parse_reading_line(""), None);
}

#[test]
fn window_keeps_the_strongest_reading_per_id() {
    let mut w = ReadingWindow::new();
    assert!(w.handle_line("abc|1|-50", false).is_none());
    assert!(w.handle_line("abc|2|-40", false).is_none());
    assert!(w.handle_line("abc|3|-40", false).is_none());
    assert!(w.handle_line("def|1|-128", false).is_none());
    assert!(w.handle_line("broken line", false).is_none());
    let batch = w.handle_line("ghi|1|-1", true).unwrap();
    assert_eq!(batch.len(), 2);
    assert_eq!((batch[0].id(), batch[0].antenna(), batch[0].strength()), ("abc", 2, -40));
    assert_eq!((batch[1].id(), batch[1].antenna(), batch[1].strength()), ("def", 0, -128));
    let batch = w.take_batch();
    assert_eq!(batch.len(), 0);
}
