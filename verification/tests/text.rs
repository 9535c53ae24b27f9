use audio8_runtime::chars::{find, is_whitespace, joined, same_chars, to_chars, to_text, trim_bounds};
use audio8_runtime::digits::{decimal_chars, numbered, parse_usize};
use audio8_runtime::text::{
    clean_text, format_reference_text, is_cjk, is_control_or_format, is_line_break,
    normalize_whitespace,
};
use audio8_runtime::unassigned::{is_unassigned, FIRST_UNASSIGNED, UNASSIGNED};

#[test]
fn whitespace_is_that_of_std() {
    for u in 0..=0x10FFFFu32 {
        if let Some(c) = char::from_u32(u) {
            assert_eq!(is_whitespace(c), c.is_whitespace(), "{:x}", u);
        }
    }
}

#[test]
fn control_characters_are_dropped_ranges() {
    for u in 0..=0x10FFFFu32 {
        if let Some(c) = char::from_u32(u) {
            let expected = c.is_control()
                || matches!(u,
                    0x00AD | 0x0600..=0x0605 | 0x061C | 0x06DD | 0x070F | 0x0890..=0x0891 |
                    0x08E2 | 0x180E | 0x200B..=0x200F | 0x202A..=0x202E | 0x2060..=0x2064 |
                    0x2066..=0x206F | 0xFEFF | 0xFFF9..=0xFFFB | 0x110BD | 0x110CD |
                    0x13430..=0x1343F | 0x1BCA0..=0x1BCA3 | 0x1D173..=0x1D17A | 0xE0001 |
                    0xE0020..=0xE007F | 0xE000..=0xF8FF | 0xF0000..=0xFFFFD |
                    0x100000..=0x10FFFD)
                || is_unassigned(u);
            assert_eq!(is_control_or_format(c), expected, "{:x}", u);
        }
    }
}

#[test]
fn unassigned_code_points() {
    assert_eq!(UNASSIGNED[0].0, FIRST_UNASSIGNED);
    for pair in UNASSIGNED.windows(2) {
        assert!(pair[0].0 <= pair[0].1 && pair[0].1 + 1 < pair[1].0);
    }
    assert_eq!((0..=0x10FFFFu32).filter(|&u| is_unassigned(u)).count(), 819533);
    for u in [0x378, 0x379, 0x530, 0x2FE0, 0xFDD0, 0xFDEF, 0xFFFE, 0x1FFFF, 0xE0000, 0x10FFFF] {
        assert!(is_unassigned(u), "{:x}", u);
    }
    for u in [0, 0x41, 0x377, 0x37A, 0x4E00, 0xD800, 0xE000, 0xFFFD, 0x10D40, 0x1CC00, 0x1F600, 0xF0000] {
        assert!(!is_unassigned(u), "{:x}", u);
    }
    assert_eq!(clean_text("a\u{378}b\u{fdd0} c\u{e0000}"), "ab c");
}

#[test]
fn cjk_ranges() {
    for u in 0..=0x10FFFFu32 {
        if let Some(c) = char::from_u32(u) {
            let expected = matches!(u,
                0x1100..=0x11FF | 0x2E80..=0x2FDF | 0x3000..=0x303F | 0x3040..=0x30FF |
                0x3100..=0x31FF | 0x3400..=0x4DBF | 0x4E00..=0x9FFF | 0xA960..=0xA97F |
                0xAC00..=0xD7A3 | 0xD7B0..=0xD7FF | 0xF900..=0xFAFF |
                0xFE30..=0xFE4F | 0xFF01..=0xFF9F | 0x20000..=0x2FA1F);
            assert_eq!(is_cjk(c), expected, "{:x}", u);
        }
    }
}

#[test]
fn line_breaks() {
    for c in ['\r', '\n', '\x0b', '\x0c', '\u{1c}', '\u{1d}', '\u{1e}', '\u{85}', '\u{2028}', '\u{2029}'] {
        assert!(is_line_break(c));
    }
    for c in [' ', '\t', 'a', '\u{1b}', '\u{1f}', '\u{3000}'] {
        assert!(!is_line_break(c));
    }
}

#[test]
fn clean_text_collapses_white_space() {
    assert_eq!(clean_text("  Hello,\t\t world!  \n"), "Hello, world!");
    assert_eq!(clean_text("a\nb"), "a b");
    assert_eq!(clean_text("line one\r\nline two"), "line one line two");
    assert_eq!(clean_text(""), "");
    assert_eq!(clean_text(" \n\t "), "");
}

#[test]
fn clean_text_joins_broken_cjk_lines() {
    assert_eq!(clean_text("你好\n世界"), "你好世界");
    assert_eq!(clean_text("你好 \n 世界"), "你好世界");
    assert_eq!(clean_text("你好 世界"), "你好 世界");
    assert_eq!(clean_text("你好\nworld"), "你好 world");
    assert_eq!(clean_text("hello\n世界"), "hello 世界");
    assert_eq!(clean_text("こんにちは\n"), "こんにちは");
}

#[test]
fn clean_text_drops_unprintable_characters() {
    assert_eq!(clean_text("a\u{200b}b\u{00ad}c\u{7}d"), "abcd");
    assert_eq!(clean_text("a\u{e000}\u{fffa}b"), "ab");
    assert_eq!(clean_text("a\u{feff}b"), "ab");
    assert_eq!(clean_text("\u{feff}text\u{2066}x\u{2069}\u{e0041}\u{10fffd}\u{1ffff}"), "textx");
    assert_eq!(clean_text("\u{feff}"), "");
    // What stood between two runs of white space is gone before they collapse.
    assert_eq!(clean_text("a \u{200b} b"), "a b");
}

#[test]
fn clean_text_twice_is_clean_text_once() {
    for text in ["  x \u{200b} y ", "你\n\u{200b}好", "a\n\nb", "\u{3000}全角\u{3000}空白\u{3000}"] {
        let once = clean_text(text);
        assert_eq!(clean_text(&once), once);
    }
}

#[test]
fn normalize_whitespace_keeps_control_characters() {
    assert_eq!(normalize_whitespace(" a\u{7}  b "), "a\u{7} b");
}

#[test]
fn reference_text_gets_a_speaker_tag() {
    assert_eq!(format_reference_text(" Hello  there "), "<|speaker:0|>Hello there");
    assert_eq!(format_reference_text("<|speaker:3|>Hi"), "<|speaker:3|>Hi");
    assert_eq!(format_reference_text(""), "<|speaker:0|>");
    let once = format_reference_text("plain");
    assert_eq!(format_reference_text(&once), once);
}

#[test]
fn searching_and_trimming() {
    let text = to_chars("abcabc");
    assert_eq!(find(&text, &to_chars("ca")), Some(2));
    assert_eq!(find(&text, &to_chars("abc")), Some(0));
    assert_eq!(find(&text, &to_chars("x")), None);
    assert_eq!(find(&text, &to_chars("")), Some(0));
    assert_eq!(find(&to_chars("ab"), &to_chars("abc")), None);
    assert_eq!(trim_bounds(&to_chars("  ab \u{3000}")), (2, 4));
    assert_eq!(to_text(&to_chars("äß漢")), "äß漢");
    assert!(same_chars(&to_chars("ab"), &to_chars("ab")));
    assert!(!same_chars(&to_chars("ab"), &to_chars("ac")));
    assert_eq!(joined("front", "back"), "frontback");
}

#[test]
fn decimal_numbers_read_back() {
    for n in [0usize, 7, 10, 155776, usize::MAX] {
        let digits = decimal_chars(n);
        assert_eq!(to_text(&digits), format!("{}", n));
        assert_eq!(parse_usize(&digits), Some(n));
    }
    assert_eq!(numbered("layers.", 23), "layers.23");
}

#[test]
fn parse_usize_agrees_with_std() {
    let cases = ["", "+", "-", "+5", "++5", "-5", "007", "12a", " 12", "18446744073709551615",
        "18446744073709551616", "99999999999999999999999", "١"];
    for case in cases {
        assert_eq!(parse_usize(&to_chars(case)), case.parse::<usize>().ok(), "{:?}", case);
    }
}
