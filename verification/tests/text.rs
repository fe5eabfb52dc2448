use fuckace::text::{
    chars_of, decimal_string, join_strings, str_contains, str_equal, str_replace, str_trim,
    string_of,
};
use fuckace::utf16::{le_units_from, utf16_to_string_lossy, utf16_units, utf16le_with_bom};

#[test]
fn decimal_numerals() {
    assert_eq!(decimal_string(0), "0");
    assert_eq!(decimal_string(7), "7");
    assert_eq!(decimal_string(10), "10");
    assert_eq!(decimal_string(4096), "4096");
    assert_eq!(decimal_string(u64::MAX), u64::MAX.to_string());
}

#[test]
fn join_puts_separator_between_parts() {
    assert_eq!(join_strings(&vec![], ", "), "");
    assert_eq!(join_strings(&vec!["a".to_string()], ", "), "a");
    assert_eq!(
        join_strings(&vec!["a".to_string(), "".to_string(), "c".to_string()], "+"),
        "a++c"
    );
}

#[test]
fn contains_and_equal() {
    assert!(str_contains("c:\\sguard64.exe", "sguard64.exe"));
    assert!(!str_contains("sguard6", "sguard64.exe"));
    assert!(str_contains("abc", ""));
    assert!(str_equal("检测", "检测"));
    assert!(!str_equal("ab", "abc"));
}

#[test]
fn replace_is_left_to_right_without_overlap() {
    assert_eq!(str_replace("aaaa", "aa", "b"), "bb");
    assert_eq!(str_replace("aaa", "aa", "b"), "ba");
    assert_eq!(str_replace("x/y/z", "/", "\\"), "x\\y\\z");
    for (s, p, r) in [("abcabc", "bc", "X"), ("", "a", "b"), ("&&", "&", "&amp;"), ("ababab", "aba", "-")] {
        assert_eq!(str_replace(s, p, r), s.replace(p, r));
    }
}

#[test]
fn trim_agrees_with_std() {
    for s in ["  x  ", "\u{3000}x\u{85}", "\t\n\r x y \u{2028}", "", "   ", "\u{200B}x", "x\u{A0}"] {
        assert_eq!(str_trim(s), s.trim());
    }
}

#[test]
fn chars_round_trip() {
    let s = "A检测😀";
    assert_eq!(string_of(&chars_of(s)), s);
}

#[test]
fn utf16_encoding_agrees_with_std() {
    for s in ["", "abc", "检测", "😀x", "\u{FFFF}\u{10000}\u{10FFFF}"] {
        assert_eq!(utf16_units(s), s.encode_utf16().collect::<Vec<u16>>());
    }
}

#[test]
fn utf16_decoding_agrees_with_std() {
    let cases: Vec<Vec<u16>> = vec![
        vec![],
        vec![0x41, 0xD83D, 0xDE00],
        vec![0xD800],
        vec![0xDC00, 0x41],
        vec![0xD800, 0xD800, 0xDC00],
        vec![0xDBFF, 0xDFFF, 0xFFFF],
    ];
    for units in cases {
        assert_eq!(utf16_to_string_lossy(&units), String::from_utf16_lossy(&units));
    }
}

#[test]
fn utf16le_file_bytes() {
    assert_eq!(utf16le_with_bom("A"), vec![0xFF, 0xFE, 0x41, 0x00]);
    assert_eq!(utf16le_with_bom("😀"), vec![0xFF, 0xFE, 0x3D, 0xD8, 0x00, 0xDE]);
    assert_eq!(utf16le_with_bom(""), vec![0xFF, 0xFE]);
    assert_eq!(le_units_from(&vec![0xFF, 0xFE, 0x34, 0x12, 0x99], 2), vec![0x1234]);
}
