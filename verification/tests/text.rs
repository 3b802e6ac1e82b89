use yfix::text::{is_whitespace, split_lines, str_eq};

#[test]
fn whitespace_agrees_with_std_on_every_char() {
    for u in 0u32..=0x10FFFF {
        if let Some(c) = char::from_u32(u) {
            assert_eq!(is_whitespace(c), c.is_whitespace(), "U+{:04X}", u);
        }
    }
}

#[test]
fn lines_agree_with_std() {
    for s in ["", "\n", "a", "a\n", "a\n\n", "a\r\nb", "a\r", "\r\n", "a\n\rb", "x\r\r\n", "\n\nq"] {
        let ours: Vec<String> = split_lines(s).iter().map(|l| l.iter().collect()).collect();
        let std_lines: Vec<String> = s.lines().map(|l| l.to_string()).collect();
        assert_eq!(ours, std_lines, "input {:?}", s);
    }
}

#[test]
fn string_equality() {
    assert!(str_eq("on", "on"));
    assert!(!str_eq("on", "off"));
    assert!(!str_eq("", "x"));
}
