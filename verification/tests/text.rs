use crypto_watcher::text::{
    ascii_lowercase, chars_ends_with, chars_eq, chars_of, chars_starts_with, join_strings,
    parse_unsigned_chars, push_decimal, remove_all_chars, split_chars, string_from_chars,
    trim_chars,
};

fn chars(s: &str) -> Vec<char> {
    s.chars().collect()
}

fn text(v: &[char]) -> String {
    v.iter().collect()
}

const SAMPLES: [&str; 12] = [
    "",
    "abc",
    "  a b  ",
    "\t\n\u{0B}\u{0C}\r x \u{85}\u{A0}",
    "\u{1680}\u{2000}y\u{200A}\u{2028}\u{2029}\u{202F}\u{205F}\u{3000}",
    "\u{200B}z\u{200B}",
    ",a,,b,",
    "bb:20:2.5",
    ":::",
    "USDTUSDT",
    "XUSDTYUSDTUSD",
    "ÄbC-Straße",
];

#[test]
fn trim_matches_str_trim() {
    for s in SAMPLES {
        assert_eq!(text(&trim_chars(&chars(s))), s.trim(), "{:?}", s);
    }
}

#[test]
fn split_matches_str_split() {
    for s in SAMPLES {
        for sep in [',', ':'] {
            let ours: Vec<String> = split_chars(&chars(s), sep).iter().map(|p| text(p)).collect();
            let std: Vec<String> = s.split(sep).map(|p| p.to_string()).collect();
            assert_eq!(ours, std, "{:?} on {:?}", s, sep);
        }
    }
}

#[test]
fn lowercase_matches_ascii_lowercase() {
    for s in SAMPLES {
        assert_eq!(text(&ascii_lowercase(&chars(s))), s.to_ascii_lowercase());
    }
}

#[test]
fn remove_matches_replace() {
    for s in SAMPLES {
        assert_eq!(text(&remove_all_chars(&chars(s), &chars("USDT"))), s.replace("USDT", ""));
    }
}

#[test]
fn unsigned_parsing_matches_from_str() {
    let cases = [
        "", "+", "-", "0", "+0", "-0", "007", "42", "+42", " 42", "4 2", "1e3", "18446744073709551615",
        "18446744073709551616", "99999999999999999999999", "4294967295", "4294967296", "١٢",
    ];
    for s in cases {
        let ours = parse_unsigned_chars(&chars(s), u64::MAX);
        assert_eq!(ours, s.parse::<u64>().ok(), "{:?}", s);
        let small = parse_unsigned_chars(&chars(s), u32::MAX as u64);
        assert_eq!(small, s.parse::<u32>().ok().map(|v| v as u64), "{:?}", s);
    }
}

#[test]
fn decimal_matches_display() {
    for n in [0u64, 7, 10, 99, 100, 600, 1234567890, u64::MAX] {
        let mut s = String::from("n=");
        push_decimal(&mut s, n);
        assert_eq!(s, format!("n={}", n));
    }
}

#[test]
fn comparisons() {
    assert!(chars_eq(&chars("abc"), &chars("abc")));
    assert!(!chars_eq(&chars("abc"), &chars("abd")));
    assert!(!chars_eq(&chars("ab"), &chars("abc")));
    assert!(chars_starts_with(&chars("-x"), &chars("-")));
    assert!(!chars_starts_with(&chars("x-"), &chars("-")));
    assert!(chars_ends_with(&chars("BTCUSDT"), &chars("USDT")));
    assert!(!chars_ends_with(&chars("SDT"), &chars("USDT")));
}

#[test]
fn conversions_and_join() {
    assert_eq!(chars_of("héllo"), vec!['h', 'é', 'l', 'l', 'o']);
    assert_eq!(string_from_chars(&['a', 'ß']), "aß");
    let parts = vec!["a".to_string(), "b".to_string(), "c".to_string()];
    assert_eq!(join_strings(&parts, ", "), "a, b, c");
    assert_eq!(join_strings(&parts[..1], ", "), "a");
    assert_eq!(join_strings(&[], ", "), "");
}
