use coredns_rust::text::{
    decimal_text, ends_with, has_char, join, parse_number, remove_all, remove_last,
    split_text, starts_with, white_space,
};

#[test]
fn white_space_agrees_with_char() {
    for n in 0..=0x10ffffu32 {
        if let Some(c) = char::from_u32(n) {
            assert_eq!(white_space(c), c.is_whitespace());
        }
    }
}

#[test]
fn numbers_agree_with_parse() {
    let inputs = [
        "", "0", "7", "+7", "-7", "007", "+", "++1", " 1", "1 ", "12a", "65535", "65536", "99999",
        "18446744073709551615", "18446744073709551616", "٣",
    ];
    for s in inputs {
        assert_eq!(parse_number(s, u64::MAX), s.parse::<u64>().ok());
        assert_eq!(parse_number(s, 65535).map(|n| n as u16), s.parse::<u16>().ok());
    }
}

#[test]
fn decimals_agree_with_to_string() {
    for n in [0, 1, 9, 10, 19, 100, 65535, 1_000_000_007, u64::MAX] {
        assert_eq!(decimal_text(n), n.to_string());
    }
}

#[test]
fn splitting_agrees_with_split() {
    for s in ["", ":", "a", "a:b", ":a", "a:", "a::b", "1.2.3.4:53"] {
        let expected: Vec<String> = s.split(':').map(|p| p.to_string()).collect();
        assert_eq!(split_text(s, ':'), expected);
    }
}

#[test]
fn removal_agrees_with_replace() {
    for s in ["", "tls://", "tls://a", "atls://btls://", "tls:/", "tltls://s://", "ttls://"] {
        assert_eq!(remove_all(s, "tls://"), s.replace("tls://", ""));
    }
}

#[test]
fn affixes_agree_with_str() {
    for s in ["", "s", "5s", "ss", "x", "example.com", "com"] {
        for p in ["", "s", "com", ".com", "example.com.x"] {
            assert_eq!(starts_with(s, p), s.starts_with(p));
            assert_eq!(ends_with(s, p), s.ends_with(p));
        }
        assert_eq!(remove_last(s, 's'), s.strip_suffix('s').unwrap_or(s));
        assert_eq!(has_char(s, '.'), s.contains('.'));
    }
}

#[test]
fn joining_agrees_with_join() {
    let parts = vec!["www".to_string(), "example".to_string(), "org".to_string()];
    assert_eq!(join(&parts, "."), "www.example.org");
    assert_eq!(join(&vec!["a".to_string()], "."), "a");
    assert_eq!(join(&Vec::new(), "."), "");
    assert_eq!(coredns_rust::text::concat("ab", "c"), "abc");
}
