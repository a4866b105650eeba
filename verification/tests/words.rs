use gogextract::numbers::{decimal_text, number_padded_end, number_padded_start, read_number};
use gogextract::split::{split_lines, split_text};
use gogextract::text::{chars_of, contains_bytes, contains_text, join, lower_chars, string_of, trim};

fn number(s: &str, radix: u64, max: u64) -> Option<u64> {
    read_number(&chars_of(s), radix, max)
}

#[test]
fn numbers_are_read_as_the_language_reads_them() {
    for s in ["0", "+7", "", "+", "-1", "007", "12x", " 1", "18446744073709551615", "18446744073709551616"] {
        assert_eq!(number(s, 10, u64::MAX), s.parse::<u64>().ok(), "{s}");
    }
    for s in ["ff", "FFFFFFFF", "100000000", "g", "+a"] {
        assert_eq!(
            number(s, 16, u32::MAX as u64),
            u32::from_str_radix(s, 16).ok().map(|n| n as u64),
            "{s}"
        );
    }
    assert_eq!(number("777", 8, u64::MAX), Some(511));
    assert_eq!(number("8", 8, u64::MAX), None);
}

#[test]
fn numbers_are_written() {
    for n in [0u128, 9, 10, 1234567890, u128::MAX] {
        assert_eq!(decimal_text(n), n.to_string());
    }
    assert_eq!(number_padded_start(42, ' ', 10), format!("{:>10}", 42));
    assert_eq!(number_padded_start(12345, '0', 2), "12345");
    assert_eq!(number_padded_end(42, 10), format!("{:<10}", 42));
}

#[test]
fn text_is_split() {
    for s in ["", "a", "a\n", "a\r\nb", "\n\n", "a\r", "\r\n", "x\ny\n\nz\r\n"] {
        let expected: Vec<&str> = s.lines().collect();
        assert_eq!(split_lines(&chars_of(s)), expected, "{s:?}");
        let expected: Vec<&str> = s.split('\n').collect();
        assert_eq!(split_text(&chars_of(s), '\n'), expected, "{s:?}");
    }
}

#[test]
fn text_is_trimmed_and_joined() {
    for s in ["", "  a b\t\n", "\u{3000}x\u{a0}", "\u{85}y\u{2029}", "\u{200b}z"] {
        assert_eq!(string_of(trim(&chars_of(s))), s.trim(), "{s:?}");
    }
    let parts = vec!["a".to_owned(), "".to_owned(), "c".to_owned()];
    assert_eq!(join(&parts, "/"), "a//c");
    assert_eq!(string_of(&lower_chars(&chars_of("AZaz[@ÄÉ"))), "AZaz[@ÄÉ".to_ascii_lowercase());
}

#[test]
fn text_is_searched() {
    assert!(contains_text("application/x-gzip", "gzip"));
    assert!(!contains_text("gzi", "gzip"));
    assert!(contains_text("x", ""));
    assert!(contains_bytes(b"abc", b"bc"));
    assert!(!contains_bytes(b"abc", b"cb"));
}
