use move_crawler::numbers::{decimal_text, parse_i64, parse_u32};
use move_crawler::text::{ascii_lowercase, chars_of, contains_text, replace_text, same_text};

#[test]
fn u32_parsing_matches_std() {
    let cases = [
        "", "+", "-", "0", "+0", "-0", "42", "+42", "007", "4294967295", "4294967296", " 1", "1 ",
        "1a", "++1", "99999999999999999999", "\t3",
    ];
    for c in cases.iter() {
        assert_eq!(parse_u32(c.as_bytes()), c.parse::<u32>().ok(), "case {:?}", c);
    }
}

#[test]
fn i64_parsing_matches_std() {
    let cases = [
        "", "+", "-", "0", "-0", "+7", "-7", "9223372036854775807", "9223372036854775808",
        "-9223372036854775808", "-9223372036854775809", "+-1", "-+1", "1e3", "1700000000",
    ];
    for c in cases.iter() {
        assert_eq!(parse_i64(c.as_bytes()), c.parse::<i64>().ok(), "case {:?}", c);
    }
}

#[test]
fn non_ascii_bytes_are_not_numbers() {
    assert_eq!(parse_u32(&[0xff, b'1']), None);
    assert_eq!(parse_i64(&[b'1', 0x80]), None);
}

#[test]
fn decimal_text_matches_display() {
    for n in [0u32, 5, 9, 10, 45, 50, 55, 100, 4294967295].iter() {
        assert_eq!(decimal_text(*n), n.to_string());
    }
}

#[test]
fn replace_matches_std() {
    let cases = [
        ("a#b#c", "#", "--"),
        ("##", "#", "x"),
        ("aaaa", "aa", "b"),
        ("no match", "zz", "y"),
        ("after: #cursor)", "#cursor", "\"abc\""),
        ("", "x", "y"),
    ];
    for (s, p, r) in cases.iter() {
        assert_eq!(replace_text(s, p, r), s.replace(p, r));
    }
}

#[test]
fn lowercase_and_search() {
    assert_eq!(ascii_lowercase("Move.TOML Ä"), "move.toml Ä");
    assert!(contains_text("framework = SUI", "SUI"));
    assert!(!contains_text("aptos", "sui"));
    assert!(same_text("abc", "abc"));
    assert!(!same_text("abc", "abd"));
    assert_eq!(chars_of("héllo"), vec!['h', 'é', 'l', 'l', 'o']);
}

#[test]
fn whitespace_is_unicode_white_space() {
    for code in 0u32..=0x10FFFF {
        if let Some(c) = char::from_u32(code) {
            assert_eq!(move_crawler::text::is_whitespace(c), c.is_whitespace(), "U+{:04X}", code);
        }
    }
}

#[test]
fn trim_matches_std() {
    for s in ["", "  ", " a b ", "\u{3000}x\u{2028}", "\r\n\tline\u{85}", "\u{200B}z\u{200B}", "é"].iter() {
        assert_eq!(move_crawler::text::trim_text(s), s.trim());
    }
}
