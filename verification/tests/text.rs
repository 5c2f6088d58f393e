use beng_leecher::numbers::{parse_u64, to_decimal, to_two_digits};
use beng_leecher::paths::{extension, file_name};
use beng_leecher::text::{
    contains, join, replace_all, same, since_last, split_words, starts_with, trim, trim_end_matches,
    trim_matches, until, white_space,
};
use std::path::Path;

const SAMPLES: [&str; 14] = [
    "",
    " ",
    "a",
    "  a b  ",
    "\u{a0}caf\u{e9}\u{3000}",
    "\tx\r\ny\n",
    "a//b///",
    "___a_b__",
    "no separators",
    "one.two.three",
    "aaa",
    "\u{2028}\u{1680}\u{205f}z\u{85}",
    "zero\u{200b}width",
    "|x|y|",
];

#[test]
fn white_space_agrees_with_std_on_every_character() {
    for n in 0..=0x10FFFFu32 {
        if let Some(c) = char::from_u32(n) {
            assert_eq!(white_space(c), c.is_whitespace(), "{n:x}");
        }
    }
}

#[test]
fn trimming_agrees_with_std() {
    for s in SAMPLES {
        assert_eq!(trim(s), s.trim());
        assert_eq!(trim_end_matches(s, '/'), s.trim_end_matches('/'));
        assert_eq!(trim_matches(s, '_'), s.trim_matches('_'));
    }
}

#[test]
fn splitting_agrees_with_std() {
    for s in SAMPLES {
        assert_eq!(until(s, '|'), s.split('|').next().unwrap());
        assert_eq!(since_last(s, '.'), s.rsplit('.').next().unwrap());
        let std_words: Vec<&str> = s.split_whitespace().collect();
        let words = split_words(s);
        assert_eq!(words, std_words);
        assert_eq!(join(&words, "; "), std_words.join("; "));
    }
}

#[test]
fn searching_agrees_with_std() {
    for s in SAMPLES {
        for p in SAMPLES {
            assert_eq!(starts_with(s, p), s.starts_with(p));
            assert_eq!(contains(s, p), s.contains(p));
            assert_eq!(same(s, p), s == p);
        }
    }
}

#[test]
fn replacing_agrees_with_std() {
    for s in SAMPLES {
        for p in SAMPLES {
            if !p.is_empty() {
                assert_eq!(replace_all(s, p, "<>"), s.replace(p, "<>"));
            }
        }
    }
    assert_eq!(replace_all("aaaaa", "aa", "b"), "bba");
}

#[test]
fn numerals_agree_with_std() {
    for n in [0u128, 1, 9, 10, 99, 100, 1700000000000, u64::MAX as u128, u128::MAX] {
        assert_eq!(to_decimal(n), n.to_string());
    }
    for s in [
        "", "+", "-", "0", "-0", "+0", "00012", "+7", "++7", "7 ", " 7", "18446744073709551615",
        "18446744073709551616", "99999999999999999999999", "1_000", "0x10", "12a", "\u{661}",
    ] {
        assert_eq!(parse_u64(s), s.parse::<u64>().ok(), "{s}");
    }
}

#[test]
fn numerals_round_trip() {
    for n in [0u64, 7, 60, 1234567890, u64::MAX] {
        assert_eq!(parse_u64(&to_decimal(n as u128)), Some(n));
    }
    assert_ne!(to_decimal(12), to_decimal(21));
}

#[test]
fn two_digit_numerals() {
    assert_eq!(to_two_digits(0), "00");
    assert_eq!(to_two_digits(7), "07");
    assert_eq!(to_two_digits(42), "42");
    assert_eq!(to_two_digits(100), "100");
}

#[test]
fn file_names_agree_with_std() {
    for p in [
        "", "/", ".", "..", "a", "a/b", "a/b/", "a//b//", "a/.", "a/./", "a/..", "./a", "./.", "/.",
        "downloads/1.mp4", "downloads/.mp4", "media/WE ZIJN - Afl_ 11.mp4", "a/...", "a/b.", "x/ ",
    ] {
        let std_name = Path::new(p).file_name().map(|n| n.to_string_lossy().into_owned());
        assert_eq!(file_name(p), std_name, "{p}");
    }
}

#[test]
fn extensions_agree_with_std() {
    for n in ["a", "a.mp4", ".mp4", "a.", "a.b.mp4", "..", "...", "..mp4", "a.MP4", "mp4"] {
        let ext = Path::new(n).extension().map(|e| e.to_string_lossy().into_owned());
        assert_eq!(extension(n), ext, "{n}");
    }
}
