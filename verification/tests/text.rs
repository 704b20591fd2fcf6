use android_hub_core::text::{chars_of, decimal_string, is_whitespace, parse_u32, same_chars, trim};

#[test]
fn whitespace_matches_std() {
    for code in 0u32..0x3100 {
        if let Some(c) = char::from_u32(code) {
            assert_eq!(is_whitespace(c), c.is_whitespace(), "{code:#x}");
        }
    }
}

#[test]
fn trim_matches_std() {
    for s in ["", "  ", "a", " a ", "\t12\n", "\u{3000}x y\u{85}", "x\r\n"] {
        assert_eq!(trim(s), s.trim());
    }
}

#[test]
fn parse_u32_matches_std() {
    for s in ["", "0", "+", "+0", "-0", "12", "007", "4294967295", "4294967296", "99999999999", "1a", " 1", "+-1", "١"] {
        assert_eq!(parse_u32(s), s.parse::<u32>().ok(), "{s:?}");
    }
}

#[test]
fn decimal_matches_to_string_and_parses_back() {
    for n in [0u32, 5, 10, 123, 48_000, 61_394, u32::MAX] {
        let text = decimal_string(n);
        assert_eq!(text, n.to_string());
        assert_eq!(parse_u32(&text), Some(n));
    }
}

#[test]
fn chars_and_equality() {
    assert_eq!(chars_of("aé€"), vec!['a', 'é', '€']);
    assert!(same_chars("device", "device"));
    assert!(!same_chars("device", "devic"));
    assert!(!same_chars("device", "devicE"));
}
