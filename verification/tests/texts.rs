use portix_serv::encoding::{
    decode_utf16, decode_utf8_lossy, encode_utf16, encode_utf16_bytes, units_until_zero,
};
use portix_serv::ordering::is_before;
use portix_serv::text::{
    chars_of, find, lower, next_line, parse_signed, parse_unsigned, push_decimal, replace, rfind,
    split_n, text_of, trim, white,
};
use portix_serv::wire::{put_u16, put_u16_be, put_u32, put_u64, read_u16, read_u32, read_u64};

#[test]
fn white_space_is_that_of_the_standard_library() {
    for code in 0..=0x10FFFFu32 {
        if let Some(c) = char::from_u32(code) {
            assert_eq!(white(c), c.is_whitespace(), "{code:x}");
        }
    }
}

#[test]
fn text_is_trimmed_as_the_standard_library_does() {
    for text in ["", "  ", " a b ", "\u{3000}x\t", "x"] {
        let chars = chars_of(text);
        assert_eq!(text_of(trim(&chars)), text.trim());
    }
}

#[test]
fn text_is_lowered_as_the_standard_library_does() {
    for text in ["ABC", "\u{130}", "ΑΣ", "straße", "Ünit"] {
        assert_eq!(lower(&chars_of(text)), text.to_lowercase());
    }
}

#[test]
fn lines_are_those_of_the_standard_library() {
    for text in ["", "a", "a\n", "a\r\nb", "\n\n", "a\r", "a\n\rb\n"] {
        let chars = chars_of(text);
        let mut rest: &[char] = &chars;
        let mut seen: Vec<String> = Vec::new();
        while !rest.is_empty() {
            let (line, used) = next_line(rest);
            seen.push(text_of(line));
            rest = &rest[used..];
        }
        let expected: Vec<String> = text.lines().map(str::to_owned).collect();
        assert_eq!(seen, expected, "{text:?}");
    }
}

#[test]
fn text_is_split_and_searched() {
    let chars = chars_of("a:b:c:d");
    let parts: Vec<String> = split_n(&chars, ':', 3).into_iter().map(text_of).collect();
    assert_eq!(parts, ["a", "b", "c:d"]);
    assert_eq!(find(&chars, ':'), Some(1));
    assert_eq!(rfind(&chars, ':'), Some(5));
    assert_eq!(find(&chars, 'x'), None);
    assert_eq!(text_of(&replace(&chars, ':', &['-', '-'])), "a--b--c--d");
}

#[test]
fn numbers_are_read_as_the_standard_library_does() {
    for text in ["", "0", "7", "+7", "-7", "-0", "007", "65535", "65536", " 7", "7a", "+", "-"] {
        let chars = chars_of(text);
        assert_eq!(
            parse_unsigned(&chars, 65535),
            text.parse::<u16>().ok().map(u64::from),
            "{text:?}"
        );
        assert_eq!(parse_signed(&chars), text.parse::<i64>().ok(), "{text:?}");
    }
    for text in [
        "18446744073709551615",
        "18446744073709551616",
        "99999999999999999999999",
    ] {
        assert_eq!(
            parse_unsigned(&chars_of(text), u64::MAX),
            text.parse::<u64>().ok()
        );
    }
    for text in ["9223372036854775807", "9223372036854775808", "-9223372036854775808"] {
        assert_eq!(parse_signed(&chars_of(text)), text.parse::<i64>().ok());
    }
}

#[test]
fn numbers_are_written_in_decimal() {
    for n in [0, 9, 10, 12345, u64::MAX] {
        let mut out = Vec::new();
        push_decimal(&mut out, n);
        assert_eq!(text_of(&out), n.to_string());
        assert_eq!(parse_unsigned(&out, u64::MAX), Some(n));
    }
}

#[test]
fn names_are_ordered_by_their_characters() {
    assert!(is_before(&chars_of("a"), &chars_of("b")));
    assert!(is_before(&chars_of("a"), &chars_of("ab")));
    assert!(!is_before(&chars_of("b"), &chars_of("ab")));
    assert!(is_before(&chars_of(""), &chars_of("")));
    for (a, b) in [("z", "é"), ("\u{ffff}", "\u{10000}")] {
        assert_eq!(is_before(&chars_of(a), &chars_of(b)), a <= b);
    }
}

#[test]
fn utf16_is_that_of_the_standard_library() {
    for text in ["", "abc", "é", "sandi🔒", "\u{ffff}\u{10000}\u{10ffff}"] {
        let units: Vec<u16> = text.encode_utf16().collect();
        assert_eq!(encode_utf16(text), units);
        assert_eq!(decode_utf16(&units).as_deref(), Some(text));
        assert_eq!(encode_utf16_bytes(text).len(), 2 * units.len());
    }
    for units in [vec![0xD800], vec![0xDC00], vec![0xD800, 0x41], vec![0xDC00, 0xD800]] {
        assert_eq!(decode_utf16(&units), String::from_utf16(&units).ok());
    }
    assert_eq!(units_until_zero(&[0x41, 0, 0x42, 0, 0, 0, 0x43, 0]), [0x41, 0x42]);
}

#[test]
fn broken_utf8_is_repaired() {
    assert_eq!(decode_utf8_lossy("hal\u{f6}".as_bytes()), "hal\u{f6}");
    assert_eq!(decode_utf8_lossy(&[0x61, 0xFF, 0x62]), "a\u{fffd}b");
    assert_eq!(decode_utf8_lossy(&[]), "");
}

#[test]
fn numbers_keep_their_bytes() {
    let mut out = Vec::new();
    put_u16(&mut out, 0x0102);
    put_u16_be(&mut out, 0x0102);
    put_u32(&mut out, 0x01020304);
    put_u64(&mut out, 0x0102030405060708);
    assert_eq!(out, [2, 1, 1, 2, 4, 3, 2, 1, 8, 7, 6, 5, 4, 3, 2, 1]);
    assert_eq!(read_u16(&out, 0), Some(0x0102));
    assert_eq!(read_u32(&out, 4), Some(0x01020304));
    assert_eq!(read_u64(&out, 8), Some(0x0102030405060708));
    assert_eq!(read_u64(&out, 9), None);
    assert_eq!(read_u16(&out, usize::MAX), None);
}
