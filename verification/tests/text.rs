//! Character-level text against the standard library.

use bindfetto::bytes::{as_pattern32, as_signed32, as_signed64, push_u32, push_u64, read_u32, read_u64};
use bindfetto::text::{
    chars_of, find, find_last, lowered, push_decimal, push_signed, read_digits, read_i32,
    read_unsigned, same_text, scan_end, scan_start, starts_with, string_of, text_of_str, trimmed,
    trimmed_end, trimmed_start, uppered, CharClass,
};
use bindfetto::utf16::{encode_utf16, push_utf16, read_units};

fn s(c: &[char]) -> String {
    c.iter().collect()
}

#[test]
fn white_space_is_that_of_unicode() {
    for u in 0..=0x10ffffu32 {
        if let Some(c) = char::from_u32(u) {
            assert_eq!(CharClass::White.contains(c), c.is_whitespace(), "{u:x}");
            assert_eq!(CharClass::Solid.contains(c), !c.is_whitespace());
            assert_eq!(CharClass::Digit.contains(c), c.is_ascii_digit());
            assert_eq!(CharClass::HexDigit.contains(c), c.is_ascii_hexdigit());
            let iface = c.is_ascii_alphanumeric() || c == '_' || c == '.';
            assert_eq!(CharClass::Descriptor.contains(c), iface);
        }
    }
}

#[test]
fn search_agrees_with_std() {
    let texts = ["", "a", "aaa", "abab ab", "é: é: ", "ab", ": ", "x: y: z"];
    let pats = ["", "a", "ab", ": ", "aa", "é", "zz"];
    for t in texts {
        let c = chars_of(t);
        for p in pats {
            let chars = |i: usize| t[..i].chars().count();
            assert_eq!(find(&c, p, 0), t.find(p).map(chars), "{t:?} {p:?}");
            assert_eq!(find_last(&c, p), t.rfind(p).map(chars), "{t:?} {p:?}");
            assert_eq!(starts_with(&c, p), t.starts_with(p));
            assert_eq!(same_text(t, p), t == p);
        }
    }
    let c = chars_of("abab");
    assert_eq!(find(&c, "ab", 1), Some(2));
    assert_eq!(find(&c, "ab", 3), None);
    assert_eq!(find(&c, "ab", 9), None);
    assert_eq!(find(&c, "", 4), Some(4));
    assert_eq!(find(&c, "", 5), None);
}

#[test]
fn trimming_agrees_with_std() {
    for t in ["", " ", "a", " a ", "\t\u{a0}x y\u{3000}\n", "\u{2003}", "ab\u{200b}"] {
        let c = chars_of(t);
        assert_eq!(s(trimmed(&c)), t.trim());
        assert_eq!(s(trimmed_start(&c)), t.trim_start());
        assert_eq!(s(trimmed_end(&c)), t.trim_end());
    }
}

#[test]
fn runs_are_as_long_as_they_can_be() {
    let c = chars_of("ab12cd");
    assert_eq!(scan_end(&c, CharClass::Digit, 2), 4);
    assert_eq!(scan_end(&c, CharClass::Digit, 0), 0);
    assert_eq!(scan_end(&c, CharClass::HexDigit, 0), 6);
    assert_eq!(scan_start(&c, CharClass::Digit, 4), 2);
    assert_eq!(scan_start(&c, CharClass::Digit, 6), 6);
    assert_eq!(scan_start(&c, CharClass::Descriptor, 6), 0);
}

#[test]
fn numbers_agree_with_std() {
    for t in [
        "", "+", "-", "0", "-0", "+0", "007", "+12", "-12", "--1", "+-1", "4294967295",
        "4294967296", "2147483647", "2147483648", "-2147483648", "-2147483649", "65535", "65536",
        "1x", " 1", "1 ", "٣", "99999999999999999999999999", "00000000000000000000000005",
    ] {
        let c = chars_of(t);
        assert_eq!(read_unsigned(&c, u32::MAX), t.parse::<u32>().ok(), "{t}");
        assert_eq!(read_unsigned(&c, 65535), t.parse::<u16>().ok().map(u32::from), "{t}");
        assert_eq!(read_i32(&c), t.parse::<i32>().ok(), "{t}");
    }
    assert_eq!(read_digits(&chars_of("+1"), 9), None);
    assert_eq!(read_digits(&chars_of("10"), 9), None);
    assert_eq!(read_digits(&chars_of("9"), 9), Some(9));
}

#[test]
fn decimals_agree_with_std() {
    for n in [0u64, 1, 9, 10, 11, 99, 100, 12345, u32::MAX as u64, u64::MAX] {
        let mut out = text_of_str("<");
        push_decimal(&mut out, n);
        assert_eq!(out, format!("<{n}"));
    }
    for n in [0i64, 5, -5, i64::MAX, i64::MIN] {
        let mut out = String::new();
        push_signed(&mut out, n);
        assert_eq!(out, n.to_string());
    }
}

#[test]
fn cases_agree_with_std() {
    let t = "aZ_09@[`{é\u{130}";
    assert_eq!(s(&lowered(&chars_of(t))), t.to_ascii_lowercase());
    assert_eq!(s(&uppered(&chars_of(t))), t.to_ascii_uppercase());
    assert_eq!(string_of(&chars_of(t), 1, 3), "Z_");
}

#[test]
fn utf16_agrees_with_std() {
    for t in ["", "abc", "é\u{ffff}\u{10000}\u{10ffff}", "\u{d7ff}\u{e000}"] {
        let units: Vec<u16> = t.encode_utf16().collect();
        assert_eq!(encode_utf16(&chars_of(t)), units);
        let mut out = Vec::new();
        push_utf16(&mut out, &units);
        assert_eq!(s(&out), t);
        let bytes: Vec<u8> = units.iter().flat_map(|u| u.to_le_bytes()).collect();
        assert_eq!(read_units(&bytes), units);
    }
    for units in [
        vec![0xd800u16],
        vec![0xdc00, 0xd800],
        vec![0xd800, 0xd800, 0xdc00],
        vec![0xdbff, 0xe000],
        vec![0xdfff, 0x41],
    ] {
        let mut out = Vec::new();
        push_utf16(&mut out, &units);
        assert_eq!(s(&out), String::from_utf16_lossy(&units));
    }
}

#[test]
fn integers_agree_with_std() {
    let b = [0x01, 0x80, 0xff, 0x7f, 0xaa, 0x00, 0x10, 0x90, 0x33];
    assert_eq!(read_u32(&b, 0), u32::from_le_bytes([0x01, 0x80, 0xff, 0x7f]));
    assert_eq!(read_u32(&b, 5), u32::from_le_bytes([0x00, 0x10, 0x90, 0x33]));
    assert_eq!(read_u64(&b, 0), u64::from_le_bytes([0x01, 0x80, 0xff, 0x7f, 0xaa, 0x00, 0x10, 0x90]));
    for n in [0u32, 1, 0x7fff_ffff, 0x8000_0000, u32::MAX] {
        assert_eq!(as_signed32(n), n as i32);
        assert_eq!(as_pattern32(n as i32), n);
        let mut out = vec![9];
        push_u32(&mut out, n);
        assert_eq!(out[1..], n.to_le_bytes());
    }
    for n in [0u64, 1, 0x7fff_ffff_ffff_ffff, 0x8000_0000_0000_0000, u64::MAX] {
        assert_eq!(as_signed64(n), n as i64);
        let mut out = vec![];
        push_u64(&mut out, n);
        assert_eq!(out[..], n.to_le_bytes());
    }
}
