use mirrorscope::bytes::{find_bytes, push_le, read_be, read_le, read_le_wide, read_token};
use mirrorscope::text::parts::{lines, parse_signed, split, words};
use mirrorscope::text::{
    begins_with, chars_of, contains_text, find_chars, is_white, parse_unsigned, push_decimal,
    push_hex, push_hex_wide, push_padded_hex, push_signed, rfind_chars, same, text_of, trimmed,
    trimmed_end,
};

fn chars(s: &str) -> Vec<char> {
    s.chars().collect()
}

fn texts(parts: Vec<Vec<char>>) -> Vec<String> {
    parts.iter().map(|p| p.iter().collect()).collect()
}

const SAMPLES: [&str; 16] = [
    "",
    " ",
    "a",
    "a b",
    "  a\t b\n",
    "one\r\ntwo\nthree",
    "one\n\ntwo\n",
    "\r\n",
    "\n\r",
    "a\u{a0}b\u{2003}c\u{3000}",
    "/a//b/",
    "größer ≥ klein",
    "\u{1f600} \u{85}x",
    "a-b-c",
    "+12",
    "-0",
];

#[test]
fn white_space_is_that_of_unicode() {
    for c in '\0'..=char::MAX {
        assert_eq!(is_white(c), c.is_whitespace(), "{c:?}");
    }
}

#[test]
fn cutting_agrees_with_strings() {
    for s in SAMPLES {
        let c = chars(s);
        assert_eq!(chars_of(s), c);
        assert_eq!(text_of(&c), s);
        assert_eq!(text_of(trimmed(&c)), s.trim());
        assert_eq!(text_of(trimmed_end(&c)), s.trim_end());
        assert_eq!(texts(words(&c)), s.split_whitespace().collect::<Vec<_>>());
        assert_eq!(texts(lines(&c)), s.lines().collect::<Vec<_>>(), "{s:?}");
        assert_eq!(texts(split(&c, '/')), s.split('/').collect::<Vec<_>>());
        for t in SAMPLES {
            let d = chars(t);
            assert_eq!(same(s, t), s == t);
            assert_eq!(contains_text(s, t), s.contains(t), "{s:?} {t:?}");
            assert_eq!(begins_with(&c, t), s.starts_with(t));
            let place = |at: Option<usize>| at.map(|at| s[..at].chars().count());
            assert_eq!(find_chars(&c, &d, 0), place(s.find(t)));
            assert_eq!(rfind_chars(&c, &d), place(s.rfind(t)));
        }
    }
}

#[test]
fn numbers_are_read_as_the_standard_library_reads_them() {
    for s in [
        "", "0", "7", "007", "+7", "-7", "--7", "-+7", "+-7", "+", "-", "2147483647", "2147483648",
        "-2147483648", "-2147483649", "18446744073709551615", "18446744073709551616", "ff", "FF",
        "0x1", " 1", "1 ", "g", "９",
    ] {
        let c = chars(s);
        assert_eq!(parse_signed(&c), s.parse::<i32>().ok(), "{s:?}");
        assert_eq!(parse_unsigned(&c, 10, u64::MAX), s.parse::<u64>().ok(), "{s:?}");
        assert_eq!(
            parse_unsigned(&c, 16, u64::MAX),
            u64::from_str_radix(s, 16).ok(),
            "{s:?}"
        );
        assert_eq!(
            parse_unsigned(&c, 10, 255),
            s.parse::<u8>().ok().map(u64::from),
            "{s:?}"
        );
    }
}

#[test]
fn numbers_are_written_as_the_standard_library_writes_them() {
    for n in [0u64, 1, 9, 10, 15, 16, 255, 256, 1 << 32, u64::MAX] {
        let mut out = "<".to_string();
        push_decimal(&mut out, n);
        assert_eq!(out, format!("<{n}"));
        let mut out = String::new();
        push_hex(&mut out, n);
        assert_eq!(out, format!("{n:x}"));
        let mut out = String::new();
        push_padded_hex(&mut out, n);
        assert_eq!(out, format!("{n:#018x}"));
        let mut out = String::new();
        push_hex_wide(&mut out, u128::from(n) << 64);
        assert_eq!(out, format!("{:x}", u128::from(n) << 64));
    }
    for n in [0i64, -1, 1, i64::MIN, i64::MAX] {
        let mut out = String::new();
        push_signed(&mut out, n);
        assert_eq!(out, n.to_string());
    }
}

#[test]
fn bytes_write_numbers() {
    let bytes = [0x12u8, 0x34, 0x56, 0x78, 0x9a, 0xbc, 0xde, 0xf0];
    assert_eq!(read_le(&bytes), u64::from_le_bytes(bytes));
    assert_eq!(read_be(&bytes), u64::from_be_bytes(bytes));
    assert_eq!(read_le(&bytes[..3]), 0x56_3412);
    assert_eq!(read_le(&[]), 0);
    assert_eq!(read_le_wide(&[0xff; 16]), u128::MAX);
    let mut out = vec![1];
    push_le(&mut out, 0x1234, 4);
    assert_eq!(out, vec![1, 0x34, 0x12, 0, 0]);
    assert_eq!(find_bytes(b"abcabc", b"ca", 0), Some(2));
    assert_eq!(find_bytes(b"abcabc", b"bc", 2), Some(4));
    assert_eq!(find_bytes(b"abcabc", b"x", 0), None);
}

#[test]
fn a_token_ends_where_its_characters_do() {
    let token = |s: &[u8]| -> String { read_token(s).into_iter().collect() };
    assert_eq!(token(b"go1.24rc1 x"), "go1.24rc1");
    assert_eq!(token(b"aZ09.\xff"), "aZ09.");
    assert_eq!(token(b"/a"), "");
    assert_eq!(token(b":a"), "");
    assert_eq!(token(b"@a"), "");
    assert_eq!(token(b"[a"), "");
    assert_eq!(token(b"`a"), "");
    assert_eq!(token(b"{a"), "");
    assert_eq!(token(b""), "");
}
