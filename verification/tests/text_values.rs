use artichoke::order::is_before;
use artichoke::text::{
    chars_of, contains_char, decimal_text, is_white_space, parse_number, replace_char, same_bytes,
    same_text, start_after_last, text_of, trim_text,
};

#[test]
fn characters_and_back() {
    let chars = chars_of("a\u{2603}b");
    assert_eq!(chars, vec!['a', '\u{2603}', 'b']);
    assert_eq!(text_of(&chars, 0, 3), "a\u{2603}b");
    assert_eq!(text_of(&chars, 1, 2), "\u{2603}");
    assert_eq!(text_of(&chars, 2, 2), "");
}

#[test]
fn replacing_characters() {
    assert_eq!(replace_char("a b  c", ' ', '_'), "a_b__c");
    assert_eq!(replace_char("abc", ' ', '_'), "abc");
    assert!(contains_char("a b", ' '));
    assert!(!contains_char("a_b", ' '));
}

#[test]
fn position_behind_the_last_mark() {
    let chars = chars_of("a/b/cd");
    assert_eq!(start_after_last(&chars, 6, '/'), 4);
    assert_eq!(start_after_last(&chars, 4, '/'), 4);
    assert_eq!(start_after_last(&chars, 3, '/'), 2);
    assert_eq!(start_after_last(&chars, 1, '/'), 0);
}

#[test]
fn white_space_is_what_the_standard_library_calls_so() {
    for code in 0..=0x10ffffu32 {
        if let Some(c) = char::from_u32(code) {
            assert_eq!(is_white_space(c), c.is_whitespace(), "{:x}", code);
        }
    }
}

#[test]
fn trimming_is_what_the_standard_library_does() {
    for text in ["", " ", "a", " a ", "\t a b\r\n", "\u{3000}x\u{85}", "\u{200b}x", " \n "] {
        assert_eq!(trim_text(text), text.trim(), "{:?}", text);
    }
}

#[test]
fn numbers_in_decimal() {
    for n in [0, 7, 9, 10, 11, 99, 100, 120, 1_000_000, u64::MAX - 1, u64::MAX] {
        assert_eq!(decimal_text(n), n.to_string());
    }
    assert_eq!(decimal_text(18_446_744_073_709_551_615), "18446744073709551615");
}

#[test]
fn decimal_reads_back() {
    for n in [0, 1, 9, 10, 4096, u64::MAX] {
        assert_eq!(parse_number(decimal_text(n).as_bytes()), Some(n));
    }
}

#[test]
fn numbers_are_read_as_the_standard_library_reads_them() {
    for text in [
        "0", "00", "007", "+7", "++7", "-7", "-0", "+", "", " 7", "7 ", "7a", "0x7",
        "18446744073709551615", "18446744073709551616", "18446744073709551620",
        "99999999999999999999", "100000000000000000000", "018446744073709551615", "1_000", "\u{663}",
    ] {
        assert_eq!(parse_number(text.as_bytes()), text.parse::<u64>().ok(), "{:?}", text);
    }
}

#[test]
fn equality_of_bytes_and_texts() {
    assert!(same_bytes(b"", b""));
    assert!(same_bytes(b"abc", b"abc"));
    assert!(!same_bytes(b"abc", b"abd"));
    assert!(!same_bytes(b"abc", b"ab"));
    assert!(same_text("\u{e9}", "\u{e9}"));
    assert!(!same_text("\u{e9}", "e\u{301}"));
    assert!(!same_text("Get", "get"));
}

#[test]
fn texts_are_ordered_by_their_bytes() {
    let texts = ["", "A", "Z", "a", "aa", "ab", "b", "\u{e9}", "\u{ffff}", "\u{10000}"];
    for a in texts {
        for b in texts {
            assert_eq!(is_before(a, b), a < b, "{:?} {:?}", a, b);
        }
    }
}
