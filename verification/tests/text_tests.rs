use rusty_input::text::{
    decimal_string, parse_u8_exec, split_char_exec, to_chars, trim_exec, truncate_bytes_exec,
    unescape_exec, words_exec,
};

fn chars(s: &str) -> Vec<char> {
    s.chars().collect()
}

#[test]
fn decimal_numbers() {
    assert_eq!(decimal_string(0), "0");
    assert_eq!(decimal_string(7), "7");
    assert_eq!(decimal_string(1234), "1234");
    assert_eq!(decimal_string(u128::MAX), u128::MAX.to_string());
}

#[test]
fn parse_u8_like_from_str() {
    for s in ["0", "255", "256", "+7", "-1", "", "+", "007", " 1", "1 ", "12a", "+-1"] {
        assert_eq!(parse_u8_exec(&chars(s)), s.parse::<u8>().ok(), "{:?}", s);
    }
}

#[test]
fn decimal_round_trip() {
    for n in 0..=255u8 {
        assert_eq!(parse_u8_exec(&chars(&decimal_string(n as u128))), Some(n));
    }
}

#[test]
fn trim_like_str_trim() {
    for s in ["", "  a b  ", "\t\nx\r\n", "\u{3000}y\u{a0}", "plain"] {
        let t: String = trim_exec(&chars(s)).into_iter().collect();
        assert_eq!(t, s.trim());
    }
}

#[test]
fn words_like_split_whitespace() {
    for s in ["history 24 0 10 16\n", "  a  b\tc ", "", "   "] {
        let w: Vec<String> = words_exec(&chars(s)).into_iter().map(|v| v.into_iter().collect()).collect();
        let expected: Vec<String> = s.split_whitespace().map(|x| x.to_string()).collect();
        assert_eq!(w, expected);
    }
}

#[test]
fn split_like_str_split() {
    for s in ["13, 38", "", ",", "a,,b"] {
        let w: Vec<String> =
            split_char_exec(&chars(s), ',').into_iter().map(|v| v.into_iter().collect()).collect();
        let expected: Vec<String> = s.split(',').map(|x| x.to_string()).collect();
        assert_eq!(w, expected);
    }
}

#[test]
fn unescape_like_replace() {
    for s in [r"\x1b[2J", r"a\x1b[b\x1b", r"\\x1b[[", "none"] {
        let u: String = unescape_exec(&chars(s)).into_iter().collect();
        assert_eq!(u, s.replace(r"\x1b[", "\x1b["));
    }
}

#[test]
fn truncate_on_boundaries() {
    let (t, ok) = truncate_bytes_exec(&chars("héllo"), 3);
    assert!(ok);
    assert_eq!(t.into_iter().collect::<String>(), "hé");
    let (t, ok) = truncate_bytes_exec(&chars("héllo"), 2);
    assert!(!ok);
    assert_eq!(t.into_iter().collect::<String>(), "h");
    let (t, ok) = truncate_bytes_exec(&chars("abc"), 10);
    assert!(ok);
    assert_eq!(t.into_iter().collect::<String>(), "abc");
    let mut s = String::from("héllo");
    s.truncate(3);
    assert_eq!(s, "hé");
}

#[test]
fn to_chars_keeps_text() {
    assert_eq!(to_chars("a╔b"), vec!['a', '╔', 'b']);
}
